use autoeval_cna::domain::{
    NewQuestion, ProviderLink, Question, QuestionScope, QuestionStatus, ValidationSeverity,
};
use autoeval_cna::validation::{
    count_by_status, dashboard_counts, import_cycle_name, preview_result, validate_questions,
};
use autoeval_cna::workbook::ParsedWorkbook;

fn question(status: QuestionStatus, convention_code: Option<String>) -> Question {
    Question {
        id: "q-1".into(),
        code: "EST-001".into(),
        text: "La institucion comunica claramente los resultados de autoevaluacion.".into(),
        scope: QuestionScope::Institutional,
        format: "likert".into(),
        convention_code,
        status,
        factor: "Factor 1".into(),
        characteristic: "Caracteristica 1".into(),
        aspect: "Comunicacion de resultados".into(),
        audiences: vec!["Pregrado".into()],
        justification: None,
        updated_at: 0,
    }
}

fn link(status: &str) -> ProviderLink {
    ProviderLink {
        id: "l".into(),
        subaudience: "Pregrado".into(),
        url: "https://example.test".into(),
        validation_status: status.into(),
        validated_at: None,
    }
}

#[test]
fn dashboard_counts_pending_changes_and_blocking_validations() {
    let questions = vec![
        question(QuestionStatus::Keep, Some("A".into())),
        question(QuestionStatus::Modify, None),
    ];
    let summary = dashboard_counts(&questions, &vec![]);
    assert_eq!(summary.total_questions, 2);
    assert_eq!(summary.pending_changes, 1);
    assert_eq!(summary.blocking_validations, 1);
    assert_eq!(summary.provider_links_pending, 0);
}

#[test]
fn dashboard_counts_links_and_statuses() {
    let mut deleted = question(QuestionStatus::Delete, Some("A".into()));
    deleted.audiences = vec![];
    let questions = vec![question(QuestionStatus::Keep, Some("A".into())), deleted];
    let summary = dashboard_counts(&questions, &vec![link("validated"), link("pending"), link("")]);
    assert_eq!(summary.provider_links_pending, 2);
    assert_eq!(summary.blocking_validations, 1);
    let by_status: Vec<(QuestionStatus, usize)> =
        summary.questions_by_status.iter().map(|c| (c.status, c.count)).collect();
    assert_eq!(
        by_status,
        vec![
            (QuestionStatus::Keep, 1),
            (QuestionStatus::Modify, 0),
            (QuestionStatus::Add, 0),
            (QuestionStatus::Delete, 1),
        ]
    );
    assert_eq!(count_by_status(&vec![]).iter().map(|c| c.count).sum::<usize>(), 0);
}

#[test]
fn validations_report_each_problem() {
    let mut q = question(QuestionStatus::Delete, None);
    q.audiences = vec![];
    let issues = validate_questions(&vec![q]);
    let found: Vec<(ValidationSeverity, &str)> =
        issues.iter().map(|i| (i.severity, i.message.as_str())).collect();
    assert_eq!(
        found,
        vec![
            (ValidationSeverity::Blocking, "EST-001 has no assigned subaudiences"),
            (ValidationSeverity::Blocking, "EST-001 has no response convention"),
            (ValidationSeverity::Warning, "EST-001 is marked for deletion without justification"),
        ]
    );
    assert!(issues.iter().all(|i| i.entity == "question" && i.entity_id == "q-1"));
    assert_ne!(issues[0].id, issues[1].id);

    let mut open = question(QuestionStatus::Keep, None);
    open.format = "open".into();
    assert!(validate_questions(&vec![open]).is_empty());
}

fn new_question(code: &str, audiences: Vec<&str>) -> NewQuestion {
    NewQuestion {
        code: code.into(),
        text: "Texto".into(),
        scope: QuestionScope::Institutional,
        format: "likert".into(),
        convention_code: None,
        status: QuestionStatus::Keep,
        factor: "".into(),
        characteristic: "".into(),
        aspect: "".into(),
        audiences: audiences.into_iter().map(String::from).collect(),
        justification: None,
    }
}

#[test]
fn preview_lists_audiences_and_warnings() {
    let parsed = ParsedWorkbook {
        sheet_name: "BASE".into(),
        questions: vec![
            new_question("A", vec!["Pregrado", "Directivos"]),
            new_question("B", vec![]),
            new_question("C", vec!["Directivos"]),
            new_question("D", vec![]),
        ],
        guideline_aspects: vec![],
        skipped_rows: 2,
        detected_columns: vec!["pregunta".into()],
    };
    let preview = preview_result("consolidado.xlsx".into(), parsed);
    assert_eq!(preview.file_name, "consolidado.xlsx");
    assert_eq!(preview.sheet_name, "BASE");
    assert_eq!(preview.detected_questions, 4);
    assert_eq!(preview.detected_guideline_aspects, 0);
    assert_eq!(preview.skipped_rows, 2);
    assert_eq!(preview.detected_audiences, vec!["Directivos".to_string(), "Pregrado".to_string()]);
    assert_eq!(
        preview.warnings,
        vec![
            "No se detectaron lineamientos CNA.".to_string(),
            "2 preguntas no tienen publico detectado.".to_string(),
        ]
    );

    let empty = preview_result(
        "x.xlsx".into(),
        ParsedWorkbook {
            sheet_name: "".into(),
            questions: vec![],
            guideline_aspects: vec![],
            skipped_rows: 0,
            detected_columns: vec![],
        },
    );
    assert_eq!(
        empty.warnings,
        vec![
            "No se detectaron preguntas importables.".to_string(),
            "No se detectaron lineamientos CNA.".to_string(),
        ]
    );
}

#[test]
fn imported_cycles_get_a_default_name() {
    assert_eq!(import_cycle_name(None), "Ciclo importado");
    assert_eq!(import_cycle_name(Some("  ".into())), "Ciclo importado");
    assert_eq!(import_cycle_name(Some("2026-2027".into())), "2026-2027");
}

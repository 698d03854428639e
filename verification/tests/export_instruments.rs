use autoeval_cna::domain::{
    CnaFactorCode, ExportKind, GuidelineAspect, Question, QuestionDiffKind, QuestionScope,
    QuestionStatus,
};
use autoeval_cna::export::{
    check_export_baseline, consolidated_rows, export_result, group_instruments_by_public,
    instrument_public_options, instrument_sheet_rows, lineament_row, select_instruments,
    InstrumentWorkbook,
    unchanged_comparison,
};

fn question(code: &str, factor: &str, audiences: Vec<&str>) -> Question {
    Question {
        id: format!("id-{code}"),
        code: code.into(),
        text: format!("Texto {code}"),
        scope: QuestionScope::Institutional,
        format: "likert".into(),
        convention_code: Some("A".into()),
        status: QuestionStatus::Keep,
        factor: factor.into(),
        characteristic: "1. Caracteristica".into(),
        aspect: "a. Aspecto".into(),
        audiences: audiences.into_iter().map(String::from).collect(),
        justification: None,
        updated_at: 0,
    }
}

fn texts(values: &[String]) -> Vec<&str> {
    values.iter().map(|v| v.as_str()).collect()
}

#[test]
fn consolidated_rows_repeat_a_question_per_audience() {
    let mut q = question("EST-1", "2. Estudiantes", vec!["Estudiantes Pregrado", "Directivos"]);
    q.status = QuestionStatus::Modify;
    q.justification = Some("Ajuste".into());
    let lone = question("EST-2", "Sin numero", vec![]);
    let rows = consolidated_rows(&vec![
        (q.clone(), QuestionDiffKind::Modified),
        (lone, QuestionDiffKind::Added),
    ]);
    assert_eq!(rows.len(), 3);
    assert_eq!(
        texts(&rows[0].values),
        vec![
            "2", "Estudiantes", "1", "Caracteristica", "Caracteristica", "a", "Aspecto",
            "institutional", "Modificar", "A", "EST-1", "Texto EST-1", "Estudiantes",
            "Pregrado", "Ajuste",
        ]
    );
    assert_eq!(rows[0].kind, QuestionDiffKind::Modified);
    assert_eq!(rows[1].values[12], "Directivos");
    assert_eq!(rows[1].values[13], "Directivos");
    assert_eq!(rows[2].values[0], "");
    assert_eq!(rows[2].values[1], "Sin numero");
    assert_eq!(rows[2].values[12], "General");
    assert_eq!(rows[2].values[13], "");
    assert_eq!(rows[2].kind, QuestionDiffKind::Added);
}

#[test]
fn lineament_rows_fill_the_hierarchy_only() {
    let aspect = GuidelineAspect {
        id: "a-1".into(),
        guideline_title: "Lineamiento".into(),
        scope: QuestionScope::Program,
        factor_code: CnaFactorCode::Factor3,
        factor_name: "Profesores".into(),
        characteristic_code: "3.1".into(),
        characteristic_name: "Planta".into(),
        aspect_code: "b".into(),
        aspect_description: "Descripcion".into(),
        requires_appreciation: true,
    };
    let row = lineament_row(&aspect);
    assert_eq!(row.len(), 15);
    assert_eq!(
        texts(&row[..8]),
        vec!["3", "Profesores", "3.1", "Planta", "Planta", "b", "Descripcion", "program"]
    );
    assert!(row[8..].iter().all(|v| v.is_empty()));
}

fn sample() -> Vec<(Question, QuestionDiffKind)> {
    vec![
        (question("EST-10", "1. Factor", vec!["Estudiantes Pregrado", "Estudiantes Maestrías virtuales"]), QuestionDiffKind::Unchanged),
        (question("EST-2", "1. Factor", vec!["Estudiantes Pregrado"]), QuestionDiffKind::Added),
        (question("PROF-1", "0. Inicio", vec!["Profesores Planta Pregrado", "Estudiantes"]), QuestionDiffKind::Modified),
        (question("GEN-1", "1. Factor", vec![]), QuestionDiffKind::Unchanged),
    ]
}

#[test]
fn instruments_are_grouped_by_public() {
    let instruments = group_instruments_by_public(&sample());
    let publics: Vec<&str> = instruments.iter().map(|w| w.public.as_str()).collect();
    assert_eq!(publics, vec!["Estudiantes", "General", "Profesores Planta"]);

    let students = &instruments[0];
    let keys: Vec<&str> = students.subpublics.iter().map(|c| c.key.as_str()).collect();
    assert_eq!(
        keys,
        vec!["Estudiantes", "Estudiantes Maestrías virtuales", "Estudiantes Pregrado"]
    );
    let labels: Vec<&str> = students.subpublics.iter().map(|c| c.label.as_str()).collect();
    assert_eq!(
        labels,
        vec!["Estudiantes", "Estudiantes Maestría Virtual", "Estudiantes Pregrado"]
    );
    let codes: Vec<&str> = students.questions.iter().map(|(q, _)| q.code.as_str()).collect();
    assert_eq!(codes, vec!["EST-10", "EST-2", "PROF-1"]);

    let options = instrument_public_options(instruments);
    assert_eq!(options[2].public, "Profesores Planta");
    assert_eq!(options[2].label, "Profesores de planta");
    assert_eq!(options[2].subpublics, vec!["Profesores Pregrado".to_string()]);
    assert_eq!(options[0].question_count, 3);
    assert_eq!(options[1].subpublics, vec!["General".to_string()]);
}

#[test]
fn instrument_rows_in_code_and_guideline_order() {
    let instruments = group_instruments_by_public(&sample());
    let students = &instruments[0];
    let by_order = instrument_sheet_rows(students, false);
    let codes: Vec<&str> = by_order.iter().map(|r| r.question.code.as_str()).collect();
    assert_eq!(codes, vec!["EST-2", "EST-10", "PROF-1"]);
    assert_eq!(
        texts(&by_order[0].values),
        vec!["EST-2", "1", "Factor", "1", "Caracteristica", "a", "Aspecto", "A"]
    );
    assert_eq!(by_order[0].in_columns, vec![false, false, true]);
    assert_eq!(by_order[1].in_columns, vec![false, true, true]);
    assert_eq!(by_order[2].in_columns, vec![true, false, false]);
    assert_eq!(by_order[0].kind, QuestionDiffKind::Added);

    let by_lineament = instrument_sheet_rows(students, true);
    let codes: Vec<&str> = by_lineament.iter().map(|r| r.question.code.as_str()).collect();
    assert_eq!(codes, vec!["PROF-1", "EST-2", "EST-10"]);
    assert_eq!(
        texts(&by_lineament[0].values),
        vec!["0", "Inicio", "1", "Caracteristica", "a", "Aspecto", "PROF-1", "A"]
    );
}

#[test]
fn instruments_are_selected_by_public() {
    let all = select_instruments(group_instruments_by_public(&sample()), None).unwrap();
    assert_eq!(all.len(), 3);
    let one = select_instruments(group_instruments_by_public(&sample()), Some("General")).unwrap();
    assert_eq!(one.len(), 1);
    assert_eq!(one[0].public, "General");
    assert_eq!(
        select_instruments(group_instruments_by_public(&sample()), Some("Egresados")).err(),
        Some("no questions were found for the selected public".to_string())
    );
}

#[test]
fn export_summary_and_baseline_check() {
    assert_eq!(
        check_export_baseline(0).unwrap_err(),
        "mark an original baseline before exporting change-colored workbooks"
    );
    assert!(check_export_baseline(2).is_ok());
    let result = export_result("/tmp/x.xlsx".into(), ExportKind::Consolidated, 4, &sample());
    assert_eq!(result.path, "/tmp/x.xlsx");
    assert_eq!(result.exported_questions, 4);
    assert_eq!(result.added_questions, 1);
    assert_eq!(result.modified_questions, 1);
    assert_eq!(result.removed_questions, 0);
    let plain = unchanged_comparison(vec![question("A-1", "1. F", vec![])]);
    assert_eq!(plain.len(), 1);
    assert_eq!(plain[0].1, QuestionDiffKind::Unchanged);
}

#[test]
fn rows_that_order_alike_keep_the_instrument_order() {
    let mut first = question("EST-1", "1. Factor", vec!["Estudiantes"]);
    first.text = "Primera".into();
    let mut second = question("EST-1", "1. Factor", vec!["Estudiantes"]);
    second.text = "Segunda".into();
    let w = InstrumentWorkbook {
        public: "Estudiantes".into(),
        subpublics: vec![],
        questions: vec![
            (question("EST-3", "1. Factor", vec!["Estudiantes"]), QuestionDiffKind::Unchanged),
            (first, QuestionDiffKind::Unchanged),
            (second, QuestionDiffKind::Added),
        ],
    };
    for by_lineament in [false, true] {
        let rows = instrument_sheet_rows(&w, by_lineament);
        let texts: Vec<&str> = rows.iter().map(|r| r.question.text.as_str()).collect();
        assert_eq!(texts, vec!["Primera", "Segunda", "Texto EST-3"]);
    }
}

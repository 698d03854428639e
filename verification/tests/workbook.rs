use autoeval_cna::domain::{CnaFactorCode, QuestionScope, QuestionStatus};
use autoeval_cna::marks::SheetMarks;
use autoeval_cna::workbook::{parse_workbook_sheets, ImportError, SheetInput};

fn row(cells: &[&str]) -> Vec<String> {
    cells.iter().map(|c| c.to_string()).collect()
}

fn header() -> Vec<String> {
    row(&[
        "N° Factor",
        "Descripción Factor",
        "N° Característica",
        "Nombre característica",
        "N° Aspecto",
        "Descripción Aspecto",
        "Tipo pregunta",
        "Estado pregunta",
        "Convención opción de respuesta",
        "N° pregunta",
        "Pregunta",
        "Público",
        "Tipo de público",
    ])
}

fn base_sheet() -> SheetInput {
    SheetInput {
        name: "BASE".into(),
        rows: vec![
            header(),
            row(&["1", "Proyecto educativo", "1.1", "Identidad", "a", "Descripción del aspecto", "Institucional", "Mantener", "A", "EST-2", "Califique la pregunta dos", "Estudiantes", "Pregrado"]),
            row(&["", "", "", "", "", "", "Institucional", "Modificar", "A", "EST-1", "Califique la pregunta uno", "0Estudiantes", "02Maestrías virtuales"]),
            row(&["", "", "", "", "", "", "Institucional", "Mantener", "A", "EST-2", "Califique la pregunta dos", "Profesores Planta", ""]),
            row(&["", "", "", "", "", "", "Institucional", "Eliminar", "A", "EST-3", "Otra", "Estudiantes", ""]),
            row(&["", "", "", "", "", "", "Institucional", "Mantener", "", "EST-4", "", "Estudiantes", ""]),
            row(&["", "", "", "", "", "", "Institucional", "Mantener", "A", "EST-5", "Marcada en rojo", "Estudiantes", ""]),
            row(&["", "", "", "", "", "", "Programa", "Mantener", "Abierta", "EST-6", "Explique", "Directivos", ""]),
        ],
        marks: SheetMarks { red: vec![(7, 10)], blue: vec![], green: vec![(8, 10)] },
    }
}

#[test]
fn imports_questions_grouped_by_code_with_marks() {
    let parsed = parse_workbook_sheets(&vec![base_sheet()]).unwrap();
    assert_eq!(parsed.sheet_name, "BASE");
    let codes: Vec<&str> = parsed.questions.iter().map(|q| q.code.as_str()).collect();
    assert_eq!(codes, vec!["EST-1", "EST-2", "EST-6"]);

    let first = &parsed.questions[0];
    assert_eq!(first.status, QuestionStatus::Modify);
    assert_eq!(first.audiences, vec!["Estudiantes Maestrías virtuales".to_string()]);
    assert_eq!(first.factor, "1. Proyecto educativo");
    assert_eq!(first.characteristic, "1.1. Identidad");
    assert_eq!(first.aspect, "a. Descripción del aspecto");
    assert_eq!(first.format, "likert");
    assert_eq!(first.convention_code, Some("A".to_string()));

    let second = &parsed.questions[1];
    assert_eq!(second.status, QuestionStatus::Keep);
    assert_eq!(
        second.audiences,
        vec!["Estudiantes Pregrado".to_string(), "Profesores Planta".to_string()]
    );

    let third = &parsed.questions[2];
    assert_eq!(third.status, QuestionStatus::Add);
    assert_eq!(third.scope, QuestionScope::Program);
    assert_eq!(third.format, "open");
    assert_eq!(third.audiences, vec!["Directivos".to_string()]);

    assert_eq!(parsed.skipped_rows, 3);
    assert_eq!(parsed.guideline_aspects.len(), 2);
    assert!(parsed.guideline_aspects.iter().all(|a| a.factor_code == CnaFactorCode::Factor1
        && a.characteristic_code == "1.1"
        && a.aspect_code == "a"
        && a.guideline_title == "Lineamiento CNA importado"
        && a.requires_appreciation));
    assert_eq!(parsed.detected_columns.len(), 13);
    assert!(parsed.detected_columns.iter().any(|c| c == "pregunta"));
    assert!(parsed.questions.iter().all(|q| q.status != QuestionStatus::Delete));
}

#[test]
fn sheets_without_header_are_ignored() {
    let notes = SheetInput {
        name: "Notas".into(),
        rows: vec![row(&["Texto libre"])],
        marks: SheetMarks { red: vec![], blue: vec![], green: vec![] },
    };
    let parsed = parse_workbook_sheets(&vec![notes, base_sheet()]).unwrap();
    assert_eq!(parsed.sheet_name, "BASE");
    assert_eq!(parsed.questions.len(), 3);
}

#[test]
fn a_workbook_without_question_sheet_is_refused() {
    let notes = SheetInput {
        name: "Notas".into(),
        rows: vec![row(&["Texto libre"])],
        marks: SheetMarks { red: vec![], blue: vec![], green: vec![] },
    };
    let error = parse_workbook_sheets(&vec![notes]).err().unwrap();
    assert!(matches!(error, ImportError::NoQuestionSheet));
    assert_eq!(
        error.message(),
        "No sheet with question consolidated headers was found in the workbook"
    );
    assert!(matches!(parse_workbook_sheets(&vec![]).err().unwrap(), ImportError::NoQuestionSheet));
}

#[test]
fn an_unreadable_factor_code_names_its_sheet_and_row() {
    let sheet = SheetInput {
        name: "BASE".into(),
        rows: vec![
            header(),
            row(&["Factor", "Proyecto", "1.1", "Identidad", "a", "Aspecto", "Institucional", "Mantener", "A", "EST-1", "Pregunta", "Estudiantes", ""]),
        ],
        marks: SheetMarks { red: vec![], blue: vec![], green: vec![] },
    };
    let error = parse_workbook_sheets(&vec![sheet]).err().unwrap();
    assert_eq!(
        error.message(),
        "Invalid CNA factor code 'Factor' in sheet 'BASE', row 2. Expected a non-empty factor code."
    );
}

#[test]
fn two_sheets_merge_into_one_bank() {
    let mut second = base_sheet();
    second.name = "BASEvs2".into();
    second.rows[1][12] = "Posgrado".into();
    let parsed = parse_workbook_sheets(&vec![base_sheet(), second]).unwrap();
    assert_eq!(parsed.sheet_name, "BASE, BASEvs2");
    assert_eq!(parsed.questions.len(), 3);
    assert_eq!(parsed.skipped_rows, 6);
    let est2 = parsed.questions.iter().find(|q| q.code == "EST-2").unwrap();
    assert!(est2.audiences.contains(&"Estudiantes Posgrado".to_string()));
    assert!(est2.audiences.contains(&"Estudiantes Pregrado".to_string()));
}

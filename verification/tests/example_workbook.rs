use std::io::Read;
use std::path::{Path, PathBuf};

use autoeval_cna::domain::QuestionStatus;
use autoeval_cna::importer::normalize_key;
use autoeval_cna::marks::SheetMarks;
use autoeval_cna::workbook::{parse_workbook_sheets, ParsedWorkbook, SheetInput};
use autoeval_cna::xlsx::xlsx_red_cells_by_sheet;
use autoeval_cna::xlsx_archive::xlsx_marked_cells;
use calamine::{open_workbook_auto, Data, Reader};

fn example_path() -> PathBuf {
    Path::new("../example-files/Consolidado de preguntas Enc de Aut Ins y Pr 2024 1.xlsx")
        .to_path_buf()
}

fn marked_cells_by_sheet(path: &Path) -> Vec<(String, SheetMarks)> {
    let mut file = quick_xml::Reader::from_file(path).unwrap().into_inner();
    let mut archive = Vec::new();
    file.read_to_end(&mut archive).unwrap();
    xlsx_marked_cells(&archive).unwrap()
}

fn cell_text(cell: &Data) -> String {
    match cell {
        Data::Empty => String::new(),
        Data::String(value) => value.trim().to_string(),
        Data::Float(value) => {
            if value.fract() == 0.0 {
                format!("{}", *value as i64)
            } else {
                value.to_string()
            }
        }
        Data::Int(value) => value.to_string(),
        Data::Bool(value) => value.to_string(),
        Data::DateTime(value) => value.to_string(),
        Data::DateTimeIso(value) | Data::DurationIso(value) => value.clone(),
        Data::Error(value) => format!("{value:?}"),
    }
}

fn parse_example(path: &Path) -> ParsedWorkbook {
    let marks = marked_cells_by_sheet(path);
    let mut workbook = open_workbook_auto(path).unwrap();
    let mut sheets = Vec::new();
    for name in workbook.sheet_names().to_owned() {
        let range = workbook.worksheet_range(&name).unwrap();
        let rows: Vec<Vec<String>> = range.rows().map(|row| row.iter().map(cell_text).collect()).collect();
        let sheet_marks = marks
            .iter()
            .find(|(sheet, _)| *sheet == name)
            .map(|(_, m)| m.clone())
            .unwrap_or(SheetMarks { red: vec![], blue: vec![], green: vec![] });
        sheets.push(SheetInput { name, rows, marks: sheet_marks });
    }
    match parse_workbook_sheets(&sheets) {
        Ok(workbook) => workbook,
        Err(error) => panic!("{}", error.message()),
    }
}

fn split_joined_code(value: &str) -> String {
    value
        .split_once(". ")
        .map(|(code, _)| code.trim().to_string())
        .unwrap_or_else(|| value.trim().to_string())
}

#[test]
fn detects_red_cells_in_example_consolidated_workbook() {
    let path = example_path();
    if !path.exists() {
        return;
    }

    let red_cells = xlsx_red_cells_by_sheet(&marked_cells_by_sheet(&path));
    assert!(red_cells
        .iter()
        .any(|(sheet, cells)| sheet.trim() == "BASE" && !cells.is_empty()));
    assert!(red_cells
        .iter()
        .any(|(sheet, cells)| sheet == "BASEvs2" && !cells.is_empty()));
    assert!(red_cells
        .iter()
        .any(|(sheet, cells)| sheet == "BASEvs3" && !cells.is_empty()));
}

#[test]
fn imports_example_consolidated_workbook() {
    let path = example_path();
    if !path.exists() {
        return;
    }

    let workbook = parse_example(&path);

    assert!(workbook.questions.len() > 100);
    assert!(workbook.guideline_aspects.len() > 20);
    assert!(workbook
        .detected_columns
        .iter()
        .any(|column| column == "pregunta"));
    assert!(workbook
        .questions
        .iter()
        .any(|question| !question.audiences.is_empty()));
    assert!(workbook.questions.iter().any(|question| question
        .audiences
        .iter()
        .any(|audience| audience == "Estudiantes Pregrado")));
    assert!(workbook
        .questions
        .iter()
        .all(|question| question.status != QuestionStatus::Delete));
    assert!(workbook.guideline_aspects.iter().all(|aspect| !aspect
        .characteristic_code
        .trim()
        .is_empty()
        && !aspect.characteristic_name.trim().is_empty()));
    let missing_question_characteristics = workbook
        .questions
        .iter()
        .filter(|question| question.characteristic.trim().is_empty())
        .map(|question| {
            format!(
                "{} | factor='{}' | aspect='{}' | text='{}'",
                question.code, question.factor, question.aspect, question.text
            )
        })
        .collect::<Vec<_>>();
    assert!(
        missing_question_characteristics.is_empty(),
        "questions without characteristic: {missing_question_characteristics:?}"
    );
    assert!(
        workbook
            .guideline_aspects
            .iter()
            .map(|aspect| (
                aspect.factor_code.as_str().to_string(),
                normalize_key(&aspect.characteristic_code),
                normalize_key(&aspect.characteristic_name),
            ))
            .collect::<std::collections::HashSet<_>>()
            .len()
            > 20
    );
    assert!(
        workbook
            .questions
            .iter()
            .map(|question| normalize_key(&question.characteristic))
            .collect::<std::collections::HashSet<_>>()
            .len()
            > 20
    );
    assert!(workbook
        .questions
        .iter()
        .any(|question| question.format == "open"));
    assert!(workbook
        .questions
        .iter()
        .any(|question| question.format == "likert"));

    let mut unique_questions = std::collections::HashSet::new();
    for question in &workbook.questions {
        assert!(unique_questions.insert(question.code.clone()));
    }

    let mut unique_aspects = std::collections::HashSet::new();
    for aspect in &workbook.guideline_aspects {
        assert!(unique_aspects.insert((
            aspect.scope.as_str().to_string(),
            aspect.factor_code.as_str().to_string(),
            normalize_key(&aspect.characteristic_code),
            normalize_key(&aspect.aspect_code),
        )));
    }
}

#[test]
fn links_long_appreciation_lineament_to_questions() {
    let path = example_path();
    if !path.exists() {
        return;
    }

    let workbook = parse_example(&path);
    let aspect = workbook
        .guideline_aspects
        .iter()
        .find(|aspect| {
            aspect.aspect_description.contains(
                "Apreciación por parte de la comunidad académica sobre las orientaciones",
            )
        })
        .expect("long appreciation lineament should be imported");
    let related = workbook
        .questions
        .iter()
        .filter(|question| {
            split_joined_code(&question.factor) == aspect.factor_code.as_str()
                && split_joined_code(&question.characteristic) == aspect.characteristic_code
                && split_joined_code(&question.aspect) == aspect.aspect_code
        })
        .count();
    assert!(related > 0, "long appreciation lineament should have related questions");
}

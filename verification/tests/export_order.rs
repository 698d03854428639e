use autoeval_cna::export::{
    compare_question_codes, instrument_file_name, slugify_file_part, split_number_name,
    status_excel_label,
};
use autoeval_cna::domain::QuestionStatus;
use std::cmp::Ordering;

#[test]
fn question_codes_sort_naturally_for_instruments() {
    let mut codes = vec!["10", "2", "7.1", "7", "12.1", "12"];
    codes.sort_by(|left, right| compare_question_codes(left, right));
    assert_eq!(codes, vec!["2", "7", "7.1", "10", "12", "12.1"]);
}

#[test]
fn code_comparison_is_reflexive_and_antisymmetric() {
    assert_eq!(compare_question_codes("EST-2", "EST-2"), Ordering::Equal);
    assert_eq!(compare_question_codes("EST-2", "EST-10"), Ordering::Less);
    assert_eq!(compare_question_codes("EST-10", "EST-2"), Ordering::Greater);
}

#[test]
fn number_and_name_split_on_first_dot_space() {
    assert_eq!(
        split_number_name("3. Nombre. Con punto"),
        ("3".to_string(), "Nombre. Con punto".to_string())
    );
    assert_eq!(split_number_name("Sin numero"), ("".to_string(), "Sin numero".to_string()));
}

#[test]
fn status_labels_in_spanish() {
    assert_eq!(status_excel_label(&QuestionStatus::Keep), "Mantener");
    assert_eq!(status_excel_label(&QuestionStatus::Modify), "Modificar");
    assert_eq!(status_excel_label(&QuestionStatus::Add), "Agregar");
    assert_eq!(status_excel_label(&QuestionStatus::Delete), "Eliminar");
}

#[test]
fn file_names_are_slugged() {
    assert_eq!(slugify_file_part("Profesores Planta"), "profesores-planta");
    assert_eq!(slugify_file_part("  ¡¡  "), "general");
    assert_eq!(
        instrument_file_name("instrumento", "Estudiantes"),
        "instrumento-estudiantes.xlsx"
    );
}

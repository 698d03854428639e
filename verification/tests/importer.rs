use autoeval_cna::audience::{audience_from_excel, normalize_audience_label};
use autoeval_cna::columns::{normalize_header, parse_scope, parse_status};
use autoeval_cna::domain::{QuestionScope, QuestionStatus};
use autoeval_cna::importer::{
    join_number_name, natural_code_parts, none_if_empty, normalize_key,
    question_format_from_convention, stable_code,
};

#[test]
fn parses_status_values_from_spanish_excel_labels() {
    assert_eq!(parse_status("Modificar"), QuestionStatus::Modify);
    assert_eq!(parse_status("Agregar"), QuestionStatus::Add);
    assert_eq!(parse_status("Eliminar"), QuestionStatus::Delete);
    assert_eq!(parse_status("Mantener"), QuestionStatus::Keep);
}

#[test]
fn categorizes_question_format_from_convention() {
    assert_eq!(
        question_format_from_convention(Some("Abierta"), "Explique su respuesta"),
        "open"
    );
    assert_eq!(
        question_format_from_convention(Some("K"), "¿Cuenta con apoyo institucional?"),
        "singleChoice"
    );
    assert_eq!(
        question_format_from_convention(Some("B\nE"), "Seleccione los recursos usados"),
        "multipleChoice"
    );
    assert_eq!(
        question_format_from_convention(Some("A"), "Califique su nivel de acuerdo"),
        "likert"
    );
}

#[test]
fn normalizes_audience_labels_from_versioned_sheets() {
    assert_eq!(normalize_audience_label("10Pregrado"), "Pregrado");
    assert_eq!(
        normalize_audience_label("1Profesores_Planta"),
        "Profesores Planta"
    );
    assert_eq!(
        normalize_audience_label("Unidad académica"),
        "Unidad académica"
    );
    assert_eq!(
        audience_from_excel("0Estudiantes".into(), "00Pregrado".into()),
        "Estudiantes Pregrado"
    );
}

#[test]
fn status_and_scope_labels_default_sensibly() {
    assert_eq!(parse_status("  eliminar "), QuestionStatus::Delete);
    assert_eq!(parse_status(""), QuestionStatus::Keep);
    assert_eq!(parse_scope("Programa"), QuestionScope::Program);
    assert_eq!(parse_scope("Institucional"), QuestionScope::Institutional);
}

#[test]
fn header_and_key_normalization() {
    assert_eq!(normalize_header("  N° Pregunta "), "n pregunta");
    assert_eq!(normalize_key("  Característica   Uno "), "caracteristica uno");
}

#[test]
fn number_and_name_joining() {
    assert_eq!(join_number_name("3".into(), "Nombre".into()), "3. Nombre");
    assert_eq!(join_number_name("".into(), "Nombre".into()), "Nombre");
    assert_eq!(join_number_name("3".into(), "".into()), "3");
    assert_eq!(none_if_empty("".into()), None);
    assert_eq!(none_if_empty(" x ".into()), Some(" x ".to_string()));
}

#[test]
fn natural_code_parts_read_every_number() {
    assert_eq!(natural_code_parts("EST-12.3"), vec![12, 3]);
    assert_eq!(natural_code_parts("sin numero"), Vec::<u32>::new());
}

#[test]
fn stable_codes_are_deterministic() {
    assert_eq!(stable_code("Pregunta de ejemplo"), "IMP-de-ejemplo-pregunta");
    assert_eq!(
        stable_code("uno dos tres cuatro cinco seis"),
        "IMP-cinco-cuatro-dos-tres-uno"
    );
    assert_eq!(stable_code("b a b"), "IMP-a-b");
}

use autoeval_cna::columns::{normalize_header, parse_status};
use autoeval_cna::domain::QuestionStatus;
use autoeval_cna::export::status_excel_label;
use autoeval_cna::audience::{normalize_audience_label, provider_instrument_key};
use autoeval_cna::export::split_number_name;
use autoeval_cna::importer::join_number_name;

#[test]
fn splitting_a_joined_label_gives_its_parts_back() {
    let joined = join_number_name("1.1".to_string(), "Mision".to_string());
    assert_eq!(joined, "1.1. Mision");
    assert_eq!(split_number_name(&joined), ("1.1".to_string(), "Mision".to_string()));
    let dotted = join_number_name("2.".to_string(), "Visión institucional".to_string());
    assert_eq!(
        split_number_name(&dotted),
        ("2.".to_string(), "Visión institucional".to_string())
    );
}

#[test]
fn normalising_an_audience_label_twice_changes_nothing() {
    for raw in ["1Profesores_Planta  10Pregrado", " Grupo 2 ", "__", "3Estudiantes_Maestría Virtual"] {
        let once = normalize_audience_label(raw);
        assert_eq!(normalize_audience_label(&once), once);
        assert!(!once.contains('_'));
        assert!(!once.contains("  "));
        assert!(once.split(' ').all(|w| !w.starts_with(|c: char| c.is_ascii_digit())));
    }
    assert_eq!(normalize_audience_label("Grupo 2"), "Grupo");
}

#[test]
fn an_audience_without_a_known_public_keeps_its_label_as_key() {
    let key = provider_instrument_key("1Egresados_Pregrado");
    assert_eq!(key, "Egresados Pregrado");
    assert_eq!(provider_instrument_key(&key), key);
}

#[test]
fn status_labels_read_back_as_their_status() {
    for status in [QuestionStatus::Keep, QuestionStatus::Modify, QuestionStatus::Add, QuestionStatus::Delete] {
        assert_eq!(parse_status(status_excel_label(&status)), status);
    }
}

#[test]
fn header_keys_of_ascii_text_are_stable() {
    for raw in ["  N Factor\r\n", "Descripcion   ASPECTO", "Estado\tPregunta", ""] {
        let key = normalize_header(raw);
        assert_eq!(normalize_header(&key), key);
        assert!(!key.chars().any(|c| c.is_ascii_uppercase()));
        assert!(!key.contains("  ") && key.trim() == key);
    }
    assert_eq!(normalize_header("  N Factor\r\n"), "n factor");
}

#[test]
fn instrument_keys_are_kept_under_themselves() {
    assert_eq!(provider_instrument_key("Estudiantes Pregrado"), "Estudiantes");
    assert_eq!(provider_instrument_key("Estudiantes Maestría Virtual"), "Estudiantes");
    assert_eq!(provider_instrument_key("1Profesores_Planta 10Pregrado"), "Profesores Planta");
    for raw in [
        "Profesores Planta",
        "Profesores Cátedra Virtual",
        "Servicios Generales",
        "2Administrativos",
        "Directivos Sede",
        "Estudiantes Pregrado",
        "Egresados",
    ] {
        let key = provider_instrument_key(raw);
        assert_eq!(provider_instrument_key(&key), key);
    }
}

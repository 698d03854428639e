use autoeval_cna::audience::{
    audience_from_excel, display_instrument_column_label, display_public_label,
    instrument_title_public, normalize_audience_label, provider_instrument_key,
    provider_instrument_label, InstrumentAudience,
};

#[test]
fn normalizes_encoded_excel_publics_and_subpublics() {
    assert_eq!(normalize_audience_label("10Pregrado"), "Pregrado");
    assert_eq!(
        normalize_audience_label("1Profesores_Planta"),
        "Profesores Planta"
    );
    assert_eq!(
        audience_from_excel("0Estudiantes".into(), "02Maestrías virtuales".into()),
        "Estudiantes Maestrías virtuales"
    );
}

#[test]
fn derives_instrument_group_and_display_columns() {
    let audience = InstrumentAudience::parse("1Profesores_Planta 10Pregrado");
    assert_eq!(audience.public, "Profesores Planta");
    assert_eq!(audience.column, "Profesores Planta Pregrado");
    assert_eq!(audience.subpublic(), "Pregrado");
    assert_eq!(
        display_instrument_column_label(&audience.public, &audience.column),
        "Profesores Pregrado"
    );
    assert_eq!(
        display_instrument_column_label("Estudiantes", "Estudiantes Maestrías virtuales"),
        "Estudiantes Maestría Virtual"
    );
}

#[test]
fn audience_from_excel_keeps_the_non_empty_side() {
    assert_eq!(audience_from_excel("".into(), "".into()), "");
    assert_eq!(audience_from_excel("  ".into(), "03Pregrado".into()), "Pregrado");
    assert_eq!(audience_from_excel("2Directivos".into(), " ".into()), "Directivos");
}

#[test]
fn normalize_audience_label_collapses_spaces_and_digit_prefixes() {
    assert_eq!(normalize_audience_label("  01 Estudiantes__Pregrado  "), "Estudiantes Pregrado");
    assert_eq!(normalize_audience_label("123"), "");
    assert_eq!(normalize_audience_label(""), "");
}

#[test]
fn parse_recognises_publics_case_insensitively() {
    let exact = InstrumentAudience::parse("estudiantes");
    assert_eq!(exact.public, "Estudiantes");
    assert_eq!(exact.column, "Estudiantes");
    assert_eq!(exact.subpublic(), "Estudiantes");

    let other = InstrumentAudience::parse("Egresados Pregrado");
    assert_eq!(other.public, "General");
    assert_eq!(other.column, "Egresados Pregrado");
    assert_eq!(other.subpublic(), "Egresados Pregrado");

    let fallback = InstrumentAudience::fallback();
    assert_eq!(fallback.public, "General");
    assert_eq!(fallback.column, "General");
}

#[test]
fn provider_keys_group_subpublics_under_their_public() {
    assert_eq!(provider_instrument_key("0Estudiantes 00Pregrado"), "Estudiantes");
    assert_eq!(provider_instrument_key("Profesores Planta Pregrado"), "Profesores Planta");
    assert_eq!(provider_instrument_key("Egresados"), "Egresados");
    assert_eq!(provider_instrument_label("Sin instrumento"), "Sin instrumento");
    assert_eq!(provider_instrument_label("Profesores Planta"), "Profesores de planta");
}

#[test]
fn public_labels_for_display_and_titles() {
    assert_eq!(display_public_label("Profesores Cátedra"), "Profesores de cátedra");
    assert_eq!(display_public_label("Estudiantes"), "Estudiantes");
    assert_eq!(instrument_title_public("Profesores Planta"), "PROFESORES DE PLANTA");
    assert_eq!(instrument_title_public("Profesores Catedra"), "PROFESORES DE CÁTEDRA");
    assert_eq!(instrument_title_public("Estudiantes"), "ESTUDIANTES");
}

#[test]
fn column_labels_use_canonical_subpublics() {
    assert_eq!(display_instrument_column_label("General", "Egresados"), "Egresados");
    assert_eq!(display_instrument_column_label("Estudiantes", "Estudiantes"), "Estudiantes");
    assert_eq!(
        display_instrument_column_label("Estudiantes", "Estudiantes Especializaciones MQ"),
        "Estudiantes EMQ"
    );
    assert_eq!(
        display_instrument_column_label("Profesores Cátedra", "Profesores Cátedra Maestrias"),
        "Profesores Maestría"
    );
}

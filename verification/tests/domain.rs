use autoeval_cna::domain::{
    normalize_aspect_code, normalize_identifier, stable_short_hash, CnaFactorCode, CycleStatus,
    ProviderQuestionReviewStatus, QuestionScope, QuestionStatus,
};

#[test]
fn factor_codes_are_read_from_their_labels() {
    assert_eq!(CnaFactorCode::from_str("3"), Some(CnaFactorCode::Factor3));
    assert_eq!(CnaFactorCode::from_str(" Factor 12 "), Some(CnaFactorCode::Factor12));
    assert_eq!(CnaFactorCode::from_str("Factor"), None);
    assert_eq!(CnaFactorCode::from_str(""), None);
    assert_eq!(
        CnaFactorCode::from_str("Factor 13"),
        Some(CnaFactorCode::Custom("13".into()))
    );
    assert_eq!(CnaFactorCode::Factor10.as_str(), "10");
    assert_eq!(CnaFactorCode::Factor2.label(), "Estudiantes");
    assert_eq!(CnaFactorCode::Custom("X".into()).label(), "X");
}

#[test]
fn identifiers_and_short_hashes() {
    assert_eq!(normalize_identifier(" Aspecto N° 1.2 / área "), "aspecto-n-1-2-area");
    assert_eq!(normalize_identifier("Área"), "área");
    assert_eq!(stable_short_hash(""), "84222325");
    assert_eq!(stable_short_hash("a"), "8601ec8c");
}

#[test]
fn aspect_codes_fall_back_to_a_description_hash() {
    assert_eq!(normalize_aspect_code(&CnaFactorCode::Factor1, "1.1", "A.1", "x"), "a-1");
    let code = normalize_aspect_code(&CnaFactorCode::Factor2, "2.1", "", "Descripción");
    assert_eq!(code, format!("2-2-1-auto-{}", stable_short_hash("descripcion")));
    let without = normalize_aspect_code(&CnaFactorCode::Factor2, "", "", "Descripción");
    assert_eq!(without, format!("2-auto-{}", stable_short_hash("descripcion")));
}

#[test]
fn stored_names_round_trip() {
    for status in [QuestionStatus::Keep, QuestionStatus::Modify, QuestionStatus::Add, QuestionStatus::Delete] {
        assert_eq!(QuestionStatus::from_str(status.as_str()), status);
    }
    assert_eq!(QuestionStatus::from_str("otro"), QuestionStatus::Keep);
    assert_eq!(QuestionScope::from_str("program"), QuestionScope::Program);
    assert_eq!(QuestionScope::from_str("x"), QuestionScope::Institutional);
    assert_eq!(CycleStatus::from_str("closed"), CycleStatus::Closed);
    assert_eq!(CycleStatus::from_str("x"), CycleStatus::Planning);
    assert_eq!(
        ProviderQuestionReviewStatus::from_str(ProviderQuestionReviewStatus::Missing.as_str()),
        ProviderQuestionReviewStatus::Missing
    );
}

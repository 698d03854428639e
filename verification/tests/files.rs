use autoeval_cna::files::{
    check_editor_name, database_package_message, empty_to_none, evidence_file_name, evidence_image,
    is_database_package_extension, is_supported_image_extension, normalize_image_extension,
    normalize_tenant, pkce_challenge, sanitize_file_stem,
};
use base64::Engine;
use sha2::{Digest, Sha256};

#[test]
fn image_extensions_are_normalized() {
    assert_eq!(normalize_image_extension("jpeg"), "jpg");
    assert_eq!(normalize_image_extension("jpg"), "jpg");
    assert_eq!(normalize_image_extension("gif"), "gif");
    assert_eq!(normalize_image_extension("webp"), "webp");
    assert_eq!(normalize_image_extension("svg+xml"), "png");
    assert!(is_supported_image_extension("JPEG"));
    assert!(is_supported_image_extension("bmp"));
    assert!(!is_supported_image_extension("svg"));
}

#[test]
fn file_stems_keep_safe_characters() {
    assert_eq!(sanitize_file_stem("--Evidencia final (1).png--"), "Evidencia-final--1--png");
    assert_eq!(sanitize_file_stem("año_2024"), "a-o_2024");
    assert_eq!(sanitize_file_stem("///"), "");
}

#[test]
fn evidence_files_are_named_by_question_time_and_name() {
    assert_eq!(
        evidence_file_name("q/1", 1_700_000_000_123, Some("captura final"), "png"),
        "q-1-1700000000123-captura-final.png"
    );
    assert_eq!(evidence_file_name("q-1", 5, Some("***"), "jpg"), "q-1-5-evidencia.jpg");
    assert_eq!(evidence_file_name("q-1", -42, None, "gif"), "q-1--42-evidencia.gif");
}

#[test]
fn pasted_images_are_decoded() {
    let bytes = vec![0x89u8, 0x50, 0x4e, 0x47, 0x00, 0xff];
    let encoded = base64::engine::general_purpose::STANDARD.encode(&bytes);
    let (extension, decoded) = evidence_image(&format!("data:image/jpeg;base64,{encoded}")).unwrap();
    assert_eq!(extension, "jpg");
    assert_eq!(decoded, bytes);
    let (extension, _) = evidence_image(&format!("data:image/png;base64,{encoded}")).unwrap();
    assert_eq!(extension, "png");
}

#[test]
fn pasted_evidence_errors() {
    assert_eq!(evidence_image("sin coma").unwrap_err(), "invalid pasted image data");
    assert_eq!(
        evidence_image("data:text/plain;base64,aGVsbG8=").unwrap_err(),
        "only pasted image evidence is supported"
    );
    assert_eq!(
        evidence_image("data:image/png,aGVsbG8=").unwrap_err(),
        "only pasted image evidence is supported"
    );
    assert!(evidence_image("data:image/png;base64,@@@")
        .unwrap_err()
        .starts_with("invalid pasted image: "));
}

#[test]
fn pkce_challenge_is_url_safe_base64_of_sha256() {
    let verifier = "dBjftJeZ4CVP-mB92K27uhbUJU1p1r_wW1gFWFOEjXk";
    let expected = base64::engine::general_purpose::URL_SAFE_NO_PAD
        .encode(Sha256::digest(verifier.as_bytes()));
    assert_eq!(pkce_challenge(verifier), expected);
    assert_eq!(pkce_challenge(verifier), "E9Melhoa2OwvFrEMTJguCHaoeK1t8URWbuGJSstw-cM");
}

#[test]
fn settings_helpers() {
    assert_eq!(normalize_tenant("  "), "organizations");
    assert_eq!(normalize_tenant(" contoso "), "contoso");
    assert_eq!(empty_to_none(" ".into()), None);
    assert_eq!(empty_to_none("x".into()), Some("x".to_string()));
    assert!(is_database_package_extension("ACNA"));
    assert!(!is_database_package_extension("zip"));
    assert_eq!(database_package_message(), "database packages must use the .acna extension");
}

#[test]
fn editor_names_need_three_bytes() {
    assert_eq!(check_editor_name("  Ana María  "), Ok("Ana María".to_string()));
    assert_eq!(check_editor_name(" Al "), Err("editor full name is required".to_string()));
    assert_eq!(check_editor_name("Ñu"), Ok("Ñu".to_string()));
}

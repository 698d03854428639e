use autoeval_cna::bank::plan_aspect_relabel;
use autoeval_cna::domain::{CnaFactorCode, NewGuidelineAspect, QuestionScope};
use autoeval_cna::instruments::{
    display_assignment_label, normalized_public_keys, prepare_instrument_definition, slugify_key,
};
use autoeval_cna::marks::SheetMarks;
use autoeval_cna::xlsx::xlsx_red_cells_by_sheet;

#[test]
fn public_keys_are_trimmed_sorted_and_unique() {
    assert_eq!(
        normalized_public_keys(vec![
            " Estudiantes Pregrado ".into(),
            "".into(),
            "Directivos".into(),
            "Estudiantes Pregrado".into(),
            "  ".into(),
        ]),
        vec!["Directivos".to_string(), "Estudiantes Pregrado".to_string()]
    );
}

#[test]
fn assignment_labels_show_publics_and_columns() {
    assert_eq!(display_assignment_label("Profesores Planta"), "Profesores de planta");
    assert_eq!(display_assignment_label("Profesores Planta Pregrado"), "Profesores Pregrado");
    assert_eq!(
        display_assignment_label("Estudiantes Maestrías virtuales"),
        "Estudiantes Maestría Virtual"
    );
}

#[test]
fn instrument_keys_come_from_labels() {
    assert_eq!(slugify_key("Instrumento Egresados 2024"), "instrumento-egresados-2024");
    let fallback = slugify_key("¡¡");
    assert_eq!(fallback.len(), 36);
    let chars: Vec<char> = fallback.chars().collect();
    for (i, c) in chars.iter().enumerate() {
        if [8, 13, 18, 23].contains(&i) {
            assert_eq!(*c, '-');
        } else {
            assert!(c.is_ascii_hexdigit() && !c.is_ascii_uppercase());
        }
    }
    assert_eq!(chars[14], '4');
    assert!("89ab".contains(chars[19]));
}

#[test]
fn instrument_definitions_need_a_label_and_publics() {
    assert_eq!(
        prepare_instrument_definition("  ", vec!["Directivos".into()], false).unwrap_err(),
        "instrument label is required"
    );
    assert_eq!(
        prepare_instrument_definition("Directivos", vec![" ".into()], false).unwrap_err(),
        "assign at least one public to the instrument"
    );
    let system = prepare_instrument_definition(
        " Profesores de planta ",
        vec!["Profesores Planta Pregrado".into(), "Profesores Planta".into()],
        true,
    )
    .unwrap();
    assert_eq!(system.label, "Profesores de planta");
    assert_eq!(system.key, "Profesores Planta");
    assert_eq!(
        system.public_keys,
        vec!["Profesores Planta".to_string(), "Profesores Planta Pregrado".to_string()]
    );
    assert_eq!(
        system.public_labels,
        vec!["Profesores de planta".to_string(), "Profesores Pregrado".to_string()]
    );
    let custom = prepare_instrument_definition("Mixto Egresados", vec!["Egresados".into()], false).unwrap();
    assert_eq!(custom.key, "mixto-egresados");
}

fn aspect(characteristic_name: &str, description: &str) -> NewGuidelineAspect {
    NewGuidelineAspect {
        guideline_title: "Lineamiento".into(),
        scope: QuestionScope::Institutional,
        factor_code: CnaFactorCode::Factor2,
        factor_name: "Estudiantes".into(),
        characteristic_code: "2.1".into(),
        characteristic_name: characteristic_name.into(),
        aspect_code: "a".into(),
        aspect_description: description.into(),
        requires_appreciation: true,
    }
}

#[test]
fn editing_an_aspect_relabels_its_questions_only_when_the_hierarchy_changes() {
    let before = aspect("Participacion", "Descripcion");
    let same = plan_aspect_relabel(&before, &aspect("Participacion", "Descripcion"));
    assert!(!same.hierarchy_changed);
    assert_eq!(
        same.old_labels,
        (
            "2. Estudiantes".to_string(),
            "2.1. Participacion".to_string(),
            "a. Descripcion".to_string()
        )
    );
    let changed = plan_aspect_relabel(&before, &aspect("Participacion", "Nueva"));
    assert!(changed.hierarchy_changed);
    assert_eq!(changed.new_labels.2, "a. Nueva");
    assert_eq!(changed.old_labels.2, "a. Descripcion");
}

#[test]
fn red_cells_by_sheet_keep_the_sheet_order() {
    let marked = vec![
        ("BASE".to_string(), SheetMarks { red: vec![(2, 1), (3, 4)], blue: vec![(5, 5)], green: vec![] }),
        ("BASEvs2".to_string(), SheetMarks { red: vec![], blue: vec![], green: vec![(1, 1)] }),
    ];
    assert_eq!(
        xlsx_red_cells_by_sheet(&marked),
        vec![
            ("BASE".to_string(), vec![(2, 1), (3, 4)]),
            ("BASEvs2".to_string(), vec![]),
        ]
    );
}

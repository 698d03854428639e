use autoeval_cna::bank::{
    check_delete_guideline_aspect, check_delete_history_snapshot, check_mark_original_baseline,
    check_reset_database, check_restore_history_snapshot, highest_app_number, next_question_code,
    next_question_status, plan_question_update, prepare_new_question, question_content_changed,
    reset_database_message, QuestionUpdate,
};
use autoeval_cna::collab::{CollaborationLock, CollaborationResourceType};
use autoeval_cna::domain::{
    DeleteGuidelineAspectRequest, DeleteHistorySnapshotRequest, MarkOriginalBaselineRequest,
    NewQuestion, Question, QuestionScope, QuestionStatus, ResetDatabaseRequest,
    RestoreHistorySnapshotRequest,
};

fn question(status: QuestionStatus) -> Question {
    Question {
        id: "q-1".into(),
        code: "EST-001".into(),
        text: "La institucion comunica claramente los resultados de autoevaluacion.".into(),
        scope: QuestionScope::Institutional,
        format: "likert".into(),
        convention_code: Some("A".into()),
        status,
        factor: "Factor 1".into(),
        characteristic: "Caracteristica 1".into(),
        aspect: "Comunicacion de resultados".into(),
        audiences: vec!["Pregrado".into()],
        justification: None,
        updated_at: 1_000,
    }
}

fn new_question_from(question: &Question) -> NewQuestion {
    NewQuestion {
        code: question.code.clone(),
        text: question.text.clone(),
        scope: question.scope.clone(),
        format: question.format.clone(),
        convention_code: question.convention_code.clone(),
        status: question.status.clone(),
        factor: question.factor.clone(),
        characteristic: question.characteristic.clone(),
        aspect: question.aspect.clone(),
        audiences: question.audiences.clone(),
        justification: question.justification.clone(),
    }
}

fn with_code(code: &str) -> Question {
    let mut q = question(QuestionStatus::Keep);
    q.code = code.into();
    q
}

#[test]
fn generated_codes_follow_the_highest_app_number() {
    assert_eq!(next_question_code(&vec![]), "APP-0001");
    let existing = vec![with_code("APP-0007"), with_code("EST-999"), with_code("APP-12")];
    assert_eq!(highest_app_number(&existing), 12);
    assert_eq!(next_question_code(&existing), "APP-0013");
    assert_eq!(next_question_code(&vec![with_code("APP-99999")]), "APP-100000");
}

#[test]
fn create_question_rejects_missing_audience_before_repository_call() {
    let mut question = new_question_from(&question(QuestionStatus::Add));
    question.code = "NEW-1".into();
    question.text = "Pregunta nueva".into();
    question.audiences = vec![];
    let error = prepare_new_question(question, &vec![]).unwrap_err();
    assert_eq!(error, "at least one subaudience must be assigned");
}

#[test]
fn new_questions_need_text_and_get_a_code() {
    let mut blank_text = new_question_from(&question(QuestionStatus::Add));
    blank_text.text = "   ".into();
    assert_eq!(
        prepare_new_question(blank_text, &vec![]).unwrap_err(),
        "question text is required"
    );
    let mut no_code = new_question_from(&question(QuestionStatus::Add));
    no_code.code = " ".into();
    let prepared = prepare_new_question(no_code, &vec![with_code("APP-0004")]).unwrap();
    assert_eq!(prepared.code, "APP-0005");
    assert_eq!(prepared.text, question(QuestionStatus::Add).text);
}

#[test]
fn update_question_marks_kept_question_as_modify_when_content_changes() {
    let existing = question(QuestionStatus::Keep);
    let mut edit = new_question_from(&existing);
    edit.text = "Texto actualizado".into();
    match plan_question_update(&existing, edit, None, None, "Editor").unwrap() {
        QuestionUpdate::Save(saved) => {
            assert_eq!(saved.status, QuestionStatus::Modify);
            assert_eq!(saved.text, "Texto actualizado");
        }
        QuestionUpdate::Unchanged => panic!("the edit changes the text"),
    }
}

#[test]
fn update_question_noops_when_content_did_not_change() {
    let existing = question(QuestionStatus::Keep);
    let edit = new_question_from(&existing);
    assert!(matches!(
        plan_question_update(&existing, edit, Some(1_000), None, "Editor").unwrap(),
        QuestionUpdate::Unchanged
    ));
}

#[test]
fn update_question_allows_marking_kept_question_for_deletion() {
    let existing = question(QuestionStatus::Keep);
    let mut edit = new_question_from(&existing);
    edit.status = QuestionStatus::Delete;
    match plan_question_update(&existing, edit, None, None, "Editor").unwrap() {
        QuestionUpdate::Save(saved) => assert_eq!(saved.status, QuestionStatus::Delete),
        QuestionUpdate::Unchanged => panic!("the status changes"),
    }
}

#[test]
fn update_question_refuses_stale_and_locked_edits() {
    let existing = question(QuestionStatus::Keep);
    let mut edit = new_question_from(&existing);
    edit.text = "Otro".into();
    assert_eq!(
        plan_question_update(&existing, edit.clone(), Some(999), None, "Editor").unwrap_err(),
        "question was changed by another editor; reload it before saving"
    );
    let lock = CollaborationLock {
        resource_type: CollaborationResourceType::Question,
        resource_id: "q-1".into(),
        editor_name: "Editor Uno".into(),
        locked_until: 3_723_000_000_000,
        updated_at: 0,
    };
    assert_eq!(
        plan_question_update(&existing, edit.clone(), None, Some(lock.clone()), "Editor Dos")
            .unwrap_err(),
        "Editor Uno is editing this item until 01:02:03"
    );
    assert!(plan_question_update(&existing, edit.clone(), None, Some(lock), "Editor Uno").is_ok());
    let mut blank_code = edit;
    blank_code.code = "".into();
    match plan_question_update(&existing, blank_code, None, None, "Editor").unwrap() {
        QuestionUpdate::Save(saved) => assert_eq!(saved.code, "EST-001"),
        QuestionUpdate::Unchanged => panic!("the text changes"),
    }
}

#[test]
fn status_after_an_edit() {
    use_statuses();
}

fn use_statuses() {
    let (keep, modify, add, delete) = (
        QuestionStatus::Keep,
        QuestionStatus::Modify,
        QuestionStatus::Add,
        QuestionStatus::Delete,
    );
    assert_eq!(next_question_status(&keep, &keep), modify);
    assert_eq!(next_question_status(&keep, &delete), delete);
    assert_eq!(next_question_status(&add, &keep), add);
    assert_eq!(next_question_status(&delete, &keep), delete);
    assert_eq!(next_question_status(&modify, &add), add);
    assert_eq!(next_question_status(&add, &delete), delete);
}

#[test]
fn content_change_compares_every_field() {
    let existing = question(QuestionStatus::Keep);
    let same = new_question_from(&existing);
    assert!(!question_content_changed(&existing, &same));
    let mut other = same.clone();
    other.audiences.push("Posgrado".into());
    assert!(question_content_changed(&existing, &other));
}

#[test]
fn destructive_requests_need_their_confirmation_phrase() {
    let aspect = |text: &str, ack: bool| DeleteGuidelineAspectRequest {
        aspect_id: "a-1".into(),
        confirmation_text: text.into(),
        acknowledge_related_questions: ack,
    };
    assert_eq!(
        check_delete_guideline_aspect(&aspect("borrar", true)).unwrap_err(),
        "type ELIMINAR LINEAMIENTO to confirm deletion"
    );
    assert_eq!(
        check_delete_guideline_aspect(&aspect(" ELIMINAR LINEAMIENTO ", false)).unwrap_err(),
        "acknowledge that related questions will be deleted"
    );
    assert!(check_delete_guideline_aspect(&aspect("ELIMINAR LINEAMIENTO", true)).is_ok());

    let history = DeleteHistorySnapshotRequest {
        snapshot_id: "h-1".into(),
        confirmation_text: "ELIMINAR".into(),
    };
    assert_eq!(
        check_delete_history_snapshot(&history).unwrap_err(),
        "type ELIMINAR HISTORIAL to confirm deletion"
    );
    let restore = RestoreHistorySnapshotRequest {
        snapshot_id: "h-1".into(),
        confirmation_text: "RESTAURAR HISTORIAL".into(),
    };
    assert!(check_restore_history_snapshot(&restore).is_ok());

    let reset = |text: &str, backup: bool, irreversible: bool| ResetDatabaseRequest {
        confirmation_text: text.into(),
        acknowledge_backup: backup,
        acknowledge_irreversible: irreversible,
    };
    assert_eq!(
        check_reset_database(&reset("BORRAR", true, true)).unwrap_err(),
        "type BORRAR DATOS to confirm database cleanup"
    );
    assert_eq!(
        check_reset_database(&reset("BORRAR DATOS", true, false)).unwrap_err(),
        "backup and irreversible action acknowledgements are required"
    );
    assert!(check_reset_database(&reset("BORRAR DATOS", true, true)).is_ok());
    assert_eq!(
        reset_database_message(),
        "Database content was deleted. Workspace settings and editor profile were kept."
    );
}

#[test]
fn marking_the_original_baseline_checks_confirmation_and_questions() {
    let request = |text: &str, replacement: bool, backup: bool| MarkOriginalBaselineRequest {
        source_document_id: None,
        confirmation_text: text.into(),
        acknowledge_replacement: replacement,
        acknowledge_backup: backup,
    };
    assert_eq!(
        check_mark_original_baseline(&request("fijar", true, true), 3).unwrap_err(),
        "type FIJAR ORIGINAL to confirm the original baseline"
    );
    assert_eq!(
        check_mark_original_baseline(&request("FIJAR ORIGINAL", false, true), 3).unwrap_err(),
        "confirm replacement impact and backup acknowledgement before marking original"
    );
    assert_eq!(
        check_mark_original_baseline(&request("FIJAR ORIGINAL", true, true), 0).unwrap_err(),
        "import questions before marking an original baseline"
    );
    assert!(check_mark_original_baseline(&request("FIJAR ORIGINAL", true, true), 3).is_ok());
}

#[test]
fn generated_codes_are_new_to_the_bank() {
    let existing = vec![with_code("APP-0013"), with_code("APP-00012"), with_code("APP-12")];
    let next = next_question_code(&existing);
    assert_eq!(next, "APP-0014");
    assert!(existing.iter().all(|q| q.code != next));
}

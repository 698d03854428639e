use autoeval_cna::baseline::{baseline_snapshots, build_baseline_status, count_kind, diff_questions, hex_lower, question_hash};
use autoeval_cna::domain::{
    OriginalQuestionSnapshot, Question, QuestionDiffKind, QuestionScope, QuestionStatus,
    SourceDocument,
};
use sha2::{Digest, Sha256};

fn question(status: QuestionStatus, convention_code: Option<String>) -> Question {
    Question {
        id: "q-1".into(),
        code: "EST-001".into(),
        text: "La institucion comunica claramente los resultados de autoevaluacion.".into(),
        scope: QuestionScope::Institutional,
        format: "likert".into(),
        convention_code,
        status,
        factor: "Factor 1".into(),
        characteristic: "Caracteristica 1".into(),
        aspect: "Comunicacion de resultados".into(),
        audiences: vec!["Pregrado".into()],
        justification: None,
        updated_at: 1_700_000_000_000_000_000,
    }
}

fn snapshot_from_question(question: &Question) -> OriginalQuestionSnapshot {
    OriginalQuestionSnapshot {
        id: format!("snapshot-{}", question.code),
        question_id: question.id.clone(),
        source_document_id: "source-1".into(),
        code: question.code.clone(),
        text: question.text.clone(),
        scope: question.scope.clone(),
        format: question.format.clone(),
        convention_code: question.convention_code.clone(),
        status: question.status.clone(),
        factor: question.factor.clone(),
        characteristic: question.characteristic.clone(),
        aspect: question.aspect.clone(),
        audiences: question.audiences.clone(),
        content_hash: question_hash(question),
        marked_by: "Test Editor".into(),
        marked_at: 1_700_000_000_000_000_000,
    }
}

#[test]
fn diff_questions_keeps_status_and_missing_originals_for_exports() {
    let mut original_removed = question(QuestionStatus::Keep, Some("A".into()));
    original_removed.id = "removed-id".into();
    original_removed.code = "REM-1".into();
    original_removed.audiences = vec!["Estudiantes Pregrado".into()];

    let mut explicit_modify = question(QuestionStatus::Modify, Some("B".into()));
    explicit_modify.id = "modify-id".into();
    explicit_modify.code = "MOD-1".into();
    explicit_modify.audiences = vec!["Estudiantes Pregrado".into()];
    let mut modify_snapshot = explicit_modify.clone();
    modify_snapshot.status = QuestionStatus::Keep;

    let diffed = diff_questions(
        &vec![explicit_modify.clone()],
        &vec![
            snapshot_from_question(&original_removed),
            snapshot_from_question(&modify_snapshot),
        ],
    );

    assert!(diffed.iter().any(|(question, kind)| {
        question.code == "MOD-1" && matches!(kind, QuestionDiffKind::Modified)
    }));
    assert!(diffed.iter().any(|(question, kind)| {
        question.code == "REM-1"
            && question.status == QuestionStatus::Delete
            && matches!(kind, QuestionDiffKind::Removed)
    }));
}

#[test]
fn question_hash_is_the_sha256_of_the_content_fields() {
    let q = question(QuestionStatus::Keep, Some("A".into()));
    let mut hasher = Sha256::new();
    hasher.update(q.code.as_bytes());
    hasher.update(q.text.as_bytes());
    hasher.update("institutional".as_bytes());
    hasher.update(q.format.as_bytes());
    hasher.update("A".as_bytes());
    hasher.update(q.factor.as_bytes());
    hasher.update(q.characteristic.as_bytes());
    hasher.update(q.aspect.as_bytes());
    hasher.update("Pregrado".as_bytes());
    let expected: String = hasher.finalize().iter().map(|b| format!("{b:02x}")).collect();
    assert_eq!(question_hash(&q), expected);
    assert_eq!(question_hash(&q).len(), 64);
}

#[test]
fn question_hash_ignores_status_id_and_justification() {
    let a = question(QuestionStatus::Keep, None);
    let mut b = question(QuestionStatus::Delete, None);
    b.id = "other".into();
    b.justification = Some("porque".into());
    b.updated_at = 5;
    assert_eq!(question_hash(&a), question_hash(&b));
    let mut c = question(QuestionStatus::Keep, None);
    c.text = "Otro texto".into();
    assert_ne!(question_hash(&a), question_hash(&c));
}

#[test]
fn hex_lower_writes_two_digits_per_byte() {
    assert_eq!(hex_lower(&vec![0x00, 0x0f, 0xab, 0xff]), "000fabff");
    assert_eq!(hex_lower(&vec![]), "");
}

#[test]
fn diff_kinds_for_kept_added_and_deleted_questions() {
    let kept = question(QuestionStatus::Keep, None);
    let mut changed = question(QuestionStatus::Keep, None);
    changed.code = "EST-002".into();
    let mut changed_snapshot = changed.clone();
    changed_snapshot.text = "Texto original".into();
    let mut added = question(QuestionStatus::Keep, None);
    added.code = "EST-003".into();
    let mut deleted = question(QuestionStatus::Delete, None);
    deleted.code = "EST-004".into();

    let diffed = diff_questions(
        &vec![kept.clone(), changed.clone(), added.clone(), deleted.clone()],
        &vec![snapshot_from_question(&kept), snapshot_from_question(&changed_snapshot)],
    );
    let kinds: Vec<QuestionDiffKind> = diffed.iter().map(|(_, kind)| *kind).collect();
    assert_eq!(
        kinds,
        vec![
            QuestionDiffKind::Unchanged,
            QuestionDiffKind::Modified,
            QuestionDiffKind::Added,
            QuestionDiffKind::Removed,
        ]
    );
    assert_eq!(count_kind(&diffed, QuestionDiffKind::Unchanged), 1);
    assert_eq!(count_kind(&diffed, QuestionDiffKind::Removed), 1);
}

#[test]
fn baseline_status_counts_every_kind() {
    let kept = question(QuestionStatus::Keep, None);
    let mut removed = question(QuestionStatus::Keep, None);
    removed.code = "EST-009".into();
    let mut added = question(QuestionStatus::Add, None);
    added.code = "EST-010".into();
    let source = SourceDocument {
        id: "source-1".into(),
        file_name: "consolidado.xlsx".into(),
        path: "/tmp/consolidado.xlsx".into(),
        document_type: "questions_consolidated".into(),
        imported_at: 0,
        imported_rows: 3,
        skipped_rows: 0,
    };
    let status = build_baseline_status(
        vec![kept.clone(), added],
        vec![snapshot_from_question(&kept), snapshot_from_question(&removed)],
        Some(source.clone()),
    );
    assert!(status.has_original);
    assert_eq!(status.source_document, Some(source));
    assert_eq!(status.original_questions, 2);
    assert_eq!(status.current_questions, 2);
    assert_eq!(status.unchanged_questions, 1);
    assert_eq!(status.modified_questions, 0);
    assert_eq!(status.added_questions, 1);
    assert_eq!(status.removed_questions, 1);

    let empty = build_baseline_status(vec![kept], vec![], None);
    assert!(!empty.has_original);
    assert_eq!(empty.added_questions, 1);
}

#[test]
fn marking_original_baseline_preserves_current_question_statuses() {
    let mut modify = question(QuestionStatus::Modify, Some("A".into()));
    modify.code = "EST-001".into();
    let mut add = question(QuestionStatus::Add, Some("A".into()));
    add.code = "EST-002".into();
    let mut delete = question(QuestionStatus::Delete, Some("A".into()));
    delete.code = "EST-003".into();
    let mut keep = question(QuestionStatus::Keep, Some("A".into()));
    keep.code = "EST-004".into();
    let bank = vec![modify, add, delete, keep];
    let snapshots = baseline_snapshots(&bank, "source-1", "Test Editor", 42);
    assert_eq!(snapshots.len(), 4);
    let statuses: Vec<(&str, QuestionStatus)> =
        snapshots.iter().map(|s| (s.code.as_str(), s.status)).collect();
    assert_eq!(
        statuses,
        vec![
            ("EST-001", QuestionStatus::Modify),
            ("EST-002", QuestionStatus::Add),
            ("EST-003", QuestionStatus::Delete),
            ("EST-004", QuestionStatus::Keep),
        ]
    );
    assert!(snapshots.iter().all(|s| s.source_document_id == "source-1"
        && s.marked_by == "Test Editor"
        && s.marked_at == 42));
    assert_eq!(snapshots[3].content_hash, question_hash(&bank[3]));
    assert_ne!(snapshots[0].id, snapshots[1].id);

    let kinds: Vec<QuestionDiffKind> = diff_questions(&bank, &snapshots)
        .into_iter()
        .map(|(_, kind)| kind)
        .collect();
    assert_eq!(
        kinds,
        vec![
            QuestionDiffKind::Modified,
            QuestionDiffKind::Added,
            QuestionDiffKind::Removed,
            QuestionDiffKind::Unchanged,
        ]
    );
}

use autoeval_cna::collab::{clock_chars, CollaborationResourceType, LockTable};

const SECOND: i64 = 1_000_000_000;

#[test]
fn collaboration_locks_block_other_editors_until_released() {
    let mut table = LockTable::new();
    let now = 1_700_000_000 * SECOND;
    table
        .acquire(CollaborationResourceType::Question, "q-1", "Editor Uno", 300, now)
        .unwrap();
    let blocked = table.acquire(CollaborationResourceType::Question, "q-1", "Editor Dos", 300, now);
    assert!(blocked.is_err());

    table.release(CollaborationResourceType::Question, "q-1", "Editor Uno");
    let acquired = table
        .acquire(CollaborationResourceType::Question, "q-1", "Editor Dos", 300, now)
        .unwrap();
    assert_eq!(acquired.editor_name, "Editor Dos");
}

#[test]
fn locks_run_at_least_thirty_seconds_and_expire() {
    let mut table = LockTable::new();
    let now = 10 * SECOND;
    let lock = table
        .acquire(CollaborationResourceType::GuidelineAspect, "a-1", "Ana", 5, now)
        .unwrap();
    assert_eq!(lock.locked_until, now + 30 * SECOND);
    assert_eq!(lock.updated_at, now);
    assert_eq!(
        table
            .acquire(CollaborationResourceType::GuidelineAspect, "a-1", "Luis", 60, now + SECOND)
            .unwrap_err(),
        "Ana is editing this item until 00:00:40"
    );
    let later = now + 31 * SECOND;
    assert!(table
        .holder_of(CollaborationResourceType::GuidelineAspect, "a-1", later)
        .is_none());
    let taken = table
        .acquire(CollaborationResourceType::GuidelineAspect, "a-1", "Luis", 60, later)
        .unwrap();
    assert_eq!(taken.editor_name, "Luis");
}

#[test]
fn the_holder_renews_and_other_items_are_free() {
    let mut table = LockTable::new();
    let now = 100 * SECOND;
    table.acquire(CollaborationResourceType::Question, "q-1", "Ana", 60, now).unwrap();
    let renewed = table
        .acquire(CollaborationResourceType::Question, "q-1", "Ana", 120, now + SECOND)
        .unwrap();
    assert_eq!(renewed.locked_until, now + SECOND + 120 * SECOND);
    assert!(table
        .acquire(CollaborationResourceType::Question, "q-2", "Luis", 60, now)
        .is_ok());
    assert!(table
        .acquire(CollaborationResourceType::GuidelineAspect, "q-1", "Luis", 60, now)
        .is_ok());
    let holder = table.holder_of(CollaborationResourceType::Question, "q-1", now + 2 * SECOND);
    assert_eq!(holder.map(|l| l.editor_name), Some("Ana".to_string()));
    table.release(CollaborationResourceType::Question, "q-1", "Luis");
    assert!(table
        .holder_of(CollaborationResourceType::Question, "q-1", now + 2 * SECOND)
        .is_some());
}

#[test]
fn resource_types_round_trip_their_names() {
    assert_eq!(CollaborationResourceType::Question.as_str(), "question");
    assert_eq!(CollaborationResourceType::GuidelineAspect.as_str(), "guideline_aspect");
    assert_eq!(
        CollaborationResourceType::from_str("guideline_aspect"),
        CollaborationResourceType::GuidelineAspect
    );
    assert_eq!(
        CollaborationResourceType::from_str("otro"),
        CollaborationResourceType::Question
    );
}

#[test]
fn clock_text_is_the_utc_time_of_day() {
    let text: String = clock_chars(3_723 * SECOND).into_iter().collect();
    assert_eq!(text, "01:02:03");
    let before_epoch: String = clock_chars(-SECOND).into_iter().collect();
    assert_eq!(before_epoch, "23:59:59");
}

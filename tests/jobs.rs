use image_tagger::jobs::{
    plan_thumbnail_regeneration, pool_capacity, tally_batch, Admission, AdmissionTracker, BatchTally,
    ItemOutcome, ProgressEvent, RecoveryResult, RegenerationStep, TaggingBatch, TaggingLookup,
    HEALTH_POOL_CEILING, HEALTH_POOL_FALLBACK, THUMBNAIL_POOL_CEILING, THUMBNAIL_POOL_FALLBACK,
};

#[test]
fn pool_sizes() {
    assert_eq!(pool_capacity(Some(16), THUMBNAIL_POOL_CEILING, THUMBNAIL_POOL_FALLBACK), 8);
    assert_eq!(pool_capacity(Some(3), THUMBNAIL_POOL_CEILING, THUMBNAIL_POOL_FALLBACK), 3);
    assert_eq!(pool_capacity(None, THUMBNAIL_POOL_CEILING, THUMBNAIL_POOL_FALLBACK), 4);
    assert_eq!(pool_capacity(Some(16), HEALTH_POOL_CEILING, HEALTH_POOL_FALLBACK), 4);
    assert_eq!(pool_capacity(None, HEALTH_POOL_CEILING, HEALTH_POOL_FALLBACK), 2);
}

#[test]
fn same_item_twice_runs_once() {
    let mut t = AdmissionTracker::new();
    assert_eq!(t.try_start("abc", false), Admission::Run);
    assert_eq!(t.try_start("abc", false), Admission::Skip);
    assert_eq!(t.try_start("def", false), Admission::Run);
    t.finish("abc");
    // the first run wrote the artifact: the recheck after admission sees it
    assert_eq!(t.try_start("abc", true), Admission::Skip);
    assert_eq!(t.try_start("abc", false), Admission::Run);
}

#[test]
fn existing_artifact_is_skipped() {
    let mut t = AdmissionTracker::new();
    assert_eq!(t.try_start("abc", true), Admission::Skip);
    assert_eq!(t.try_start("abc", false), Admission::Run);
}

#[test]
fn one_corrupted_item_in_ten() {
    let mut outcomes = vec![ItemOutcome::Completed; 10];
    outcomes[6] = ItemOutcome::Failed;
    let t = tally_batch(&outcomes);
    assert_eq!(t, BatchTally { total: 10, completed: 9, skipped: 0, failed: 1 });
    let e = t.completion_event("batch_complete");
    assert_eq!(e.stage, "batch_complete");
    assert_eq!(e.message, "Batch complete: 9 succeeded, 1 failed, 0 skipped of 10");
    assert_eq!((e.current, e.total), (Some(9), Some(10)));
    assert!(e.file_hash.is_none());
}

#[test]
fn tagging_batch_steps() {
    let mut b = TaggingBatch::new(4);
    let e = b.step(TaggingLookup::Tagged(5), "h1");
    assert_eq!(e.stage, "complete");
    assert_eq!(e.message, "AI tagging complete for h1 (1/4): 5 tags added");
    let e = b.step(TaggingLookup::NotInStore, "h2");
    assert_eq!(e.stage, "skipped");
    assert_eq!(e.message, "Skipped h2: not found in database");
    let e = b.step(TaggingLookup::Failed, "h3");
    assert_eq!(e.stage, "error");
    assert_eq!(e.current, Some(1));
    let e = b.step(TaggingLookup::OriginalMissing, "h4");
    assert_eq!(e.message, "Skipped h4: original file not found");
    assert_eq!(b.items, BatchTally { total: 4, completed: 1, skipped: 2, failed: 1 });
    assert_eq!(b.tags_added, 5);
}

#[test]
fn regeneration_plan() {
    let plan = plan_thumbnail_regeneration(&vec![true, false, false], &vec![false, false, true]);
    assert_eq!(plan, vec![RegenerationStep::Skip, RegenerationStep::MarkMissing, RegenerationStep::Generate]);
}

#[test]
fn recovery_summary() {
    let r = RecoveryResult::from_counts(12, 0);
    assert!(r.success);
    assert_eq!(r.regenerated_count, Some(12));
    assert_eq!(r.message, "Regenerated 12 thumbnails successfully. 0 failed.");
    assert!(!RecoveryResult::from_counts(3, 2).success);
    let none = RecoveryResult::from_counts(0, 0);
    assert!(none.success);
    assert_eq!(none.message, "No missing thumbnails found");
    assert_eq!(none.regenerated_count, Some(0));
}

#[test]
fn tagging_progress_events() {
    let e = ProgressEvent::classifying("h1");
    assert_eq!((e.stage.as_str(), e.message.as_str()), ("classifying", "Running AI inference for h1..."));
    assert_eq!(e.file_hash.as_deref(), Some("h1"));
    let e = ProgressEvent::saving_tags(12, "h1");
    assert_eq!((e.stage.as_str(), e.message.as_str()), ("saving_tags", "Saving 12 tags for h1..."));
    let e = ProgressEvent::tagging_complete("h1", 3);
    assert_eq!((e.stage.as_str(), e.message.as_str()), ("complete", "AI tagging complete for h1: 3 tags added"));
    assert!(e.file_hash.is_none());
}

#[test]
fn tagging_batch_with_one_failure_in_ten() {
    let mut b = TaggingBatch::new(10);
    for i in 0..10 {
        let lookup = if i == 3 { TaggingLookup::Failed } else { TaggingLookup::Tagged(2) };
        let e = b.step(lookup, &format!("h{i}"));
        if i == 3 {
            assert_eq!(e.stage, "error");
            assert_eq!(e.message, "AI tagging error for h3");
        }
    }
    assert_eq!(b.items, BatchTally { total: 10, completed: 9, skipped: 0, failed: 1 });
    assert_eq!(b.tags_added, 18);
    let done = b.items.completion_event("batch_complete");
    assert_eq!(done.message, "Batch complete: 9 succeeded, 1 failed, 0 skipped of 10");
    assert_eq!((done.current, done.total), (Some(9), Some(10)));
}

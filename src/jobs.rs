use crate::strings::{push_decimal, push_text, text, decimal_digits};
use vstd::prelude::*;

verus! {

/// Most thumbnails generated at once.
pub const THUMBNAIL_POOL_CEILING: usize = 8;
/// Thumbnail pool size when the machine's parallelism is unknown.
pub const THUMBNAIL_POOL_FALLBACK: usize = 4;
/// Most health checks run at once; lower, as each decodes a whole image.
pub const HEALTH_POOL_CEILING: usize = 4;
/// Health-check pool size when the machine's parallelism is unknown.
pub const HEALTH_POOL_FALLBACK: usize = 2;

/// Size of a bounded worker pool: the machine's parallelism up to `ceiling`,
/// or `fallback` when the parallelism is unknown.
pub fn pool_capacity(available: Option<usize>, ceiling: usize, fallback: usize) -> (r: usize)
    ensures
        r == match available {
            Some(n) => if n <= ceiling { n } else { ceiling },
            None => fallback,
        },
{
    match available {
        Some(n) => if n <= ceiling {
            n
        } else {
            ceiling
        },
        None => fallback,
    }
}

/// Whether an admitted item is worked on.
#[derive(Clone, Copy, Debug, PartialEq, Eq, Structural)]
pub enum Admission {
    /// Do the work and write the artifact.
    Run,
    /// The artifact exists or the same item is being worked on: do nothing.
    Skip,
}

/// Outcome of an admission: an item runs only when its artifact is absent
/// and no run of the same item is in flight; a run joins the in-flight set.
pub open spec fn admitted(in_flight: Set<Seq<char>>, key: Seq<char>, artifact_exists: bool) -> (
    Set<Seq<char>>,
    Admission,
) {
    if artifact_exists || in_flight.contains(key) {
        (in_flight, Admission::Skip)
    } else {
        (in_flight.insert(key), Admission::Run)
    }
}

/// Items of one orchestrator that hold a permit and are being worked on.
pub struct AdmissionTracker {
    in_flight: Vec<String>,
}

impl AdmissionTracker {
    pub closed spec fn keys(&self) -> Seq<Seq<char>> {
        self.in_flight@.map_values(|s: String| s@)
    }

    /// Content keys of the items in flight.
    pub closed spec fn view(&self) -> Set<Seq<char>> {
        self.keys().to_set()
    }

    /// No item is in flight twice.
    pub closed spec fn wf(&self) -> bool {
        self.keys().no_duplicates()
    }

    /// A tracker with nothing in flight.
    pub fn new() -> (t: AdmissionTracker)
        ensures
            t.wf(),
            t.view() == Set::<Seq<char>>::empty(),
    {
        let t = AdmissionTracker { in_flight: Vec::new() };
        assert(t.keys() =~= Seq::<Seq<char>>::empty());
        t
    }

    fn position(&self, key: &str) -> (r: Option<usize>)
        ensures
            match r {
                Some(i) => i < self.in_flight.len() && self.keys()[i as int] == key@,
                None => !self.view().contains(key@),
            },
    {
        let wanted = key.to_owned();
        let mut i: usize = 0;
        while i < self.in_flight.len()
            invariant
                0 <= i <= self.in_flight.len(),
                wanted@ == key@,
                forall|k: int| 0 <= k < i ==> self.keys()[k] != key@,
            decreases self.in_flight.len() - i,
        {
            assert(self.keys()[i as int] == self.in_flight@[i as int]@);
            if self.in_flight[i] == wanted {
                return Some(i);
            }
            i = i + 1;
        }
        proof {
            if self.view().contains(key@) {
                let w = choose|w: int| 0 <= w < self.keys().len() && self.keys()[w] == key@;
                assert(self.keys()[w] != key@);
            }
        }
        None
    }

    /// Admission check made after the permit is held: `artifact_exists` is
    /// the second look at the store.
    pub fn try_start(&mut self, key: &str, artifact_exists: bool) -> (r: Admission)
        requires
            old(self).wf(),
        ensures
            final(self).wf(),
            (final(self).view(), r) == admitted(old(self).view(), key@, artifact_exists),
    {
        if artifact_exists {
            return Admission::Skip;
        }
        match self.position(key) {
            Some(_) => Admission::Skip,
            None => {
                let ghost before = self.keys();
                self.in_flight.push(key.to_owned());
                assert(self.keys() =~= before.push(key@));
                assert forall|a: int, b: int| 0 <= a < b < self.keys().len() implies self.keys()[a]
                    != self.keys()[b] by {
                    if b == before.len() {
                        assert(before[a] == self.keys()[a]);
                        assert(old(self).view().contains(before[a]));
                    }
                }
                assert(self.view() =~= old(self).view().insert(key@)) by {
                    assert forall|x: Seq<char>| self.view().contains(x) <==> old(self).view().insert(
                        key@,
                    ).contains(x) by {
                        if self.view().contains(x) {
                            let w = choose|w: int| 0 <= w < self.keys().len() && self.keys()[w] == x;
                            if w < before.len() {
                                assert(before[w] == x);
                                assert(old(self).view().contains(x));
                            }
                        }
                        if old(self).view().contains(x) {
                            let w = choose|w: int| 0 <= w < before.len() && before[w] == x;
                            assert(self.keys()[w] == x);
                        }
                        if x == key@ {
                            assert(self.keys()[before.len() as int] == x);
                        }
                    }
                }
                Admission::Run
            },
        }
    }

    /// Marks the work on `key` as over, whatever its outcome.
    pub fn finish(&mut self, key: &str)
        requires
            old(self).wf(),
        ensures
            final(self).wf(),
            final(self).view() == old(self).view().remove(key@),
    {
        match self.position(key) {
            Some(i) => {
                let ghost before = self.keys();
                let ghost last = (before.len() - 1) as int;
                self.in_flight.swap_remove(i);
                let ghost after = self.keys();
                assert(after.len() == last);
                assert forall|w: int| 0 <= w < after.len() implies #[trigger] after[w] == if w == i {
                    before[last]
                } else {
                    before[w]
                } by {}
                assert forall|a: int, b: int| 0 <= a < b < after.len() implies after[a] != after[b] by {
                    let a0 = if a == i { last } else { a };
                    let b0 = if b == i { last } else { b };
                    assert(after[a] == before[a0] && after[b] == before[b0]);
                }
                assert(self.view() =~= old(self).view().remove(key@)) by {
                    assert forall|x: Seq<char>| self.view().contains(x) <==> old(self).view().remove(
                        key@,
                    ).contains(x) by {
                        if self.view().contains(x) {
                            let w = choose|w: int| 0 <= w < after.len() && after[w] == x;
                            let w0 = if w == i { last } else { w };
                            assert(before[w0] == x);
                            assert(w0 != i);
                            assert(old(self).view().contains(x));
                        }
                        if old(self).view().remove(key@).contains(x) {
                            let w = choose|w: int| 0 <= w < before.len() && before[w] == x;
                            assert(w != i);
                            if w == last {
                                assert(after[i as int] == x);
                            } else {
                                assert(after[w] == x);
                            }
                        }
                    }
                }
            },
            None => {
                assert(self.view() =~= old(self).view().remove(key@));
            },
        }
    }
}

/// A run of the same item twice in a row, with no finish between, does the
/// work at most once.
pub proof fn lemma_no_duplicate_work(
    in_flight: Set<Seq<char>>,
    key: Seq<char>,
    first_sees_artifact: bool,
    second_sees_artifact: bool,
)
    ensures
        !(admitted(in_flight, key, first_sees_artifact).1 == Admission::Run && admitted(
            admitted(in_flight, key, first_sees_artifact).0,
            key,
            second_sees_artifact,
        ).1 == Admission::Run),
{
}

/// How one item of a batch ended.
#[derive(Clone, Copy, Debug, PartialEq, Eq, Structural)]
pub enum ItemOutcome {
    Completed,
    Skipped,
    Failed,
}

pub open spec fn count_of(outcomes: Seq<ItemOutcome>, which: ItemOutcome) -> nat
    decreases outcomes.len(),
{
    if outcomes.len() == 0 {
        0
    } else {
        count_of(outcomes.drop_last(), which) + if outcomes.last() == which {
            1nat
        } else {
            0nat
        }
    }
}

/// Running counts of a batch of `total` items.
#[derive(Clone, Copy, Debug, PartialEq, Eq, Structural)]
pub struct BatchTally {
    pub total: usize,
    pub completed: usize,
    pub skipped: usize,
    pub failed: usize,
}

impl BatchTally {
    /// Counts of a batch of `total` items, none finished.
    pub fn new(total: usize) -> (t: BatchTally)
        ensures
            t == (BatchTally { total, completed: 0, skipped: 0, failed: 0 }),
    {
        BatchTally { total, completed: 0, skipped: 0, failed: 0 }
    }

    /// Items finished so far.
    pub open spec fn finished(&self) -> nat {
        (self.completed + self.skipped + self.failed) as nat
    }

    /// Counts one more finished item.
    pub fn record(&mut self, outcome: ItemOutcome)
        requires
            old(self).finished() < old(self).total,
        ensures
            final(self).total == old(self).total,
            final(self).completed == old(self).completed + if outcome == ItemOutcome::Completed {
                1int
            } else {
                0int
            },
            final(self).skipped == old(self).skipped + if outcome == ItemOutcome::Skipped {
                1int
            } else {
                0int
            },
            final(self).failed == old(self).failed + if outcome == ItemOutcome::Failed {
                1int
            } else {
                0int
            },
    {
        match outcome {
            ItemOutcome::Completed => self.completed = self.completed + 1,
            ItemOutcome::Skipped => self.skipped = self.skipped + 1,
            ItemOutcome::Failed => self.failed = self.failed + 1,
        }
    }

    /// The batch-completion notification: completed out of total, with both
    /// the completed and the failed count in the message.
    pub fn completion_event(&self, stage: &str) -> (e: ProgressEvent)
        ensures
            e.stage@ == stage@,
            e.current == Some(self.completed),
            e.total == Some(self.total),
            e.file_hash is None,
            e.message@ == "Batch complete: "@ + decimal_digits(self.completed as nat)
                + " succeeded, "@ + decimal_digits(self.failed as nat) + " failed, "@
                + decimal_digits(self.skipped as nat) + " skipped of "@ + decimal_digits(
                self.total as nat,
            ),
    {
        let mut m = text("Batch complete: ");
        push_decimal(&mut m, self.completed);
        push_text(&mut m, " succeeded, ");
        push_decimal(&mut m, self.failed);
        push_text(&mut m, " failed, ");
        push_decimal(&mut m, self.skipped);
        push_text(&mut m, " skipped of ");
        push_decimal(&mut m, self.total);
        ProgressEvent {
            stage: text(stage),
            message: m,
            file_hash: None,
            current: Some(self.completed),
            total: Some(self.total),
        }
    }
}

/// How the items of a tagging batch ended, one outcome per lookup.
pub open spec fn tagging_outcomes(lookups: Seq<TaggingLookup>) -> Seq<ItemOutcome> {
    lookups.map_values(|l: TaggingLookup| tagging_outcome(l))
}

/// In a tagging batch where one item fails and every other is tagged, the
/// counts are one failure and all the others completed, nothing skipped.
pub proof fn lemma_tagging_single_failure(lookups: Seq<TaggingLookup>, bad: int)
    requires
        0 <= bad < lookups.len(),
        lookups[bad] == TaggingLookup::Failed,
        forall|k: int| 0 <= k < lookups.len() && k != bad ==> (#[trigger] lookups[k]) is Tagged,
    ensures
        count_of(tagging_outcomes(lookups), ItemOutcome::Failed) == 1,
        count_of(tagging_outcomes(lookups), ItemOutcome::Completed) == lookups.len() - 1,
        count_of(tagging_outcomes(lookups), ItemOutcome::Skipped) == 0,
{
    let o = tagging_outcomes(lookups);
    assert forall|k: int| 0 <= k < o.len() && k != bad implies o[k] == ItemOutcome::Completed by {
        assert(lookups[k] is Tagged);
    }
    lemma_single_failure_isolated(o, bad);
}

/// Counts of a batch whose items ended as `outcomes`.
pub fn tally_batch(outcomes: &Vec<ItemOutcome>) -> (t: BatchTally)
    ensures
        t.total == outcomes.len(),
        t.completed == count_of(outcomes@, ItemOutcome::Completed),
        t.skipped == count_of(outcomes@, ItemOutcome::Skipped),
        t.failed == count_of(outcomes@, ItemOutcome::Failed),
{
    let mut t = BatchTally::new(outcomes.len());
    let mut i: usize = 0;
    while i < outcomes.len()
        invariant
            0 <= i <= outcomes.len(),
            t.total == outcomes.len(),
            t.completed == count_of(outcomes@.take(i as int), ItemOutcome::Completed),
            t.skipped == count_of(outcomes@.take(i as int), ItemOutcome::Skipped),
            t.failed == count_of(outcomes@.take(i as int), ItemOutcome::Failed),
        decreases outcomes.len() - i,
    {
        proof {
            lemma_counts_partition(outcomes@.take(i as int));
            assert(outcomes@.take(i as int + 1).drop_last() =~= outcomes@.take(i as int));
        }
        t.record(outcomes[i]);
        i = i + 1;
    }
    assert(outcomes@.take(outcomes.len() as int) =~= outcomes@);
    t
}

/// Every item of a batch ends exactly one way: the completed, skipped and
/// failed counts add up to the batch size.
pub proof fn lemma_counts_partition(outcomes: Seq<ItemOutcome>)
    ensures
        count_of(outcomes, ItemOutcome::Completed) + count_of(outcomes, ItemOutcome::Skipped)
            + count_of(outcomes, ItemOutcome::Failed) == outcomes.len(),
    decreases outcomes.len(),
{
    if outcomes.len() > 0 {
        lemma_counts_partition(outcomes.drop_last());
    }
}

/// A failing item does not stop the batch: with exactly one failure among
/// items that otherwise complete, the tally reports one failure and every
/// other item completed.
pub proof fn lemma_single_failure_isolated(outcomes: Seq<ItemOutcome>, bad: int)
    requires
        0 <= bad < outcomes.len(),
        outcomes[bad] == ItemOutcome::Failed,
        forall|k: int| 0 <= k < outcomes.len() && k != bad ==> outcomes[k] == ItemOutcome::Completed,
    ensures
        count_of(outcomes, ItemOutcome::Failed) == 1,
        count_of(outcomes, ItemOutcome::Completed) == outcomes.len() - 1,
        count_of(outcomes, ItemOutcome::Skipped) == 0,
    decreases outcomes.len(),
{
    let n = outcomes.len() - 1;
    let init = outcomes.drop_last();
    if bad == n {
        lemma_all_completed(init);
    } else {
        lemma_single_failure_isolated(init, bad);
    }
}

proof fn lemma_all_completed(outcomes: Seq<ItemOutcome>)
    requires
        forall|k: int| 0 <= k < outcomes.len() ==> outcomes[k] == ItemOutcome::Completed,
    ensures
        count_of(outcomes, ItemOutcome::Failed) == 0,
        count_of(outcomes, ItemOutcome::Completed) == outcomes.len(),
        count_of(outcomes, ItemOutcome::Skipped) == 0,
    decreases outcomes.len(),
{
    if outcomes.len() > 0 {
        lemma_all_completed(outcomes.drop_last());
    }
}

/// A structured progress notification.
#[derive(Clone, Debug)]
pub struct ProgressEvent {
    pub stage: String,
    pub message: String,
    pub file_hash: Option<String>,
    pub current: Option<usize>,
    pub total: Option<usize>,
}

impl ProgressEvent {
    /// Notification that the model runs on one item.
    pub fn classifying(file_hash: &str) -> (e: ProgressEvent)
        ensures
            e.stage@ == "classifying"@,
            e.message@ == "Running AI inference for "@ + file_hash@ + "..."@,
            e.file_hash is Some && e.file_hash->0@ == file_hash@,
            e.current is None,
            e.total is None,
    {
        let mut message = text("Running AI inference for ");
        push_text(&mut message, file_hash);
        push_text(&mut message, "...");
        ProgressEvent {
            stage: text("classifying"),
            message,
            file_hash: Some(text(file_hash)),
            current: None,
            total: None,
        }
    }

    /// Notification that `count` predicted tags of one item are being saved.
    pub fn saving_tags(count: usize, file_hash: &str) -> (e: ProgressEvent)
        ensures
            e.stage@ == "saving_tags"@,
            e.message@ == "Saving "@ + decimal_digits(count as nat) + " tags for "@ + file_hash@
                + "..."@,
            e.file_hash is Some && e.file_hash->0@ == file_hash@,
            e.current is None,
            e.total is None,
    {
        let mut message = text("Saving ");
        push_decimal(&mut message, count);
        push_text(&mut message, " tags for ");
        push_text(&mut message, file_hash);
        push_text(&mut message, "...");
        ProgressEvent {
            stage: text("saving_tags"),
            message,
            file_hash: Some(text(file_hash)),
            current: None,
            total: None,
        }
    }

    /// Notification that tagging one item on request is done.
    pub fn tagging_complete(file_hash: &str, added: usize) -> (e: ProgressEvent)
        ensures
            e.stage@ == "complete"@,
            e.message@ == "AI tagging complete for "@ + file_hash@ + ": "@ + decimal_digits(
                added as nat,
            ) + " tags added"@,
            e.file_hash is None,
            e.current is None,
            e.total is None,
    {
        let mut message = text("AI tagging complete for ");
        push_text(&mut message, file_hash);
        push_text(&mut message, ": ");
        push_decimal(&mut message, added);
        push_text(&mut message, " tags added");
        ProgressEvent { stage: text("complete"), message, file_hash: None, current: None, total: None }
    }
}

} // verus!

verus! {

/// A stored library item.
#[derive(Clone, Debug)]
pub struct FileRecord {
    pub file_hash: String,
    pub original_path: String,
    pub file_size_bytes: i64,
    pub file_last_modified: i64,
    pub width: i64,
    pub height: i64,
    pub date_imported: i64,
    pub is_missing: i64,
}

/// What thumbnail regeneration does with one item.
#[derive(Clone, Copy, Debug, PartialEq, Eq, Structural)]
pub enum RegenerationStep {
    /// The thumbnail exists: nothing to do.
    Skip,
    /// The original is gone: record the item as missing.
    MarkMissing,
    /// Generate the thumbnail from the original.
    Generate,
}

pub open spec fn regeneration_step(thumbnail_exists: bool, original_exists: bool) -> RegenerationStep {
    if thumbnail_exists {
        RegenerationStep::Skip
    } else if !original_exists {
        RegenerationStep::MarkMissing
    } else {
        RegenerationStep::Generate
    }
}

/// Plans thumbnail regeneration: for each item, from whether its thumbnail
/// and its original exist.
pub fn plan_thumbnail_regeneration(thumbnail_exists: &Vec<bool>, original_exists: &Vec<bool>) -> (r:
    Vec<RegenerationStep>)
    requires
        thumbnail_exists.len() == original_exists.len(),
    ensures
        r.len() == thumbnail_exists.len(),
        forall|k: int|
            0 <= k < r.len() ==> r[k] == regeneration_step(
                #[trigger] thumbnail_exists[k],
                original_exists[k],
            ),
{
    let mut out: Vec<RegenerationStep> = Vec::new();
    let mut i: usize = 0;
    while i < thumbnail_exists.len()
        invariant
            thumbnail_exists.len() == original_exists.len(),
            0 <= i <= thumbnail_exists.len(),
            out.len() == i,
            forall|k: int|
                0 <= k < i ==> out[k] == regeneration_step(
                    #[trigger] thumbnail_exists[k],
                    original_exists[k],
                ),
        decreases thumbnail_exists.len() - i,
    {
        let step = if thumbnail_exists[i] {
            RegenerationStep::Skip
        } else if !original_exists[i] {
            RegenerationStep::MarkMissing
        } else {
            RegenerationStep::Generate
        };
        out.push(step);
        i = i + 1;
    }
    out
}

/// Summary of a thumbnail recovery run.
#[derive(Clone, Debug)]
pub struct RecoveryResult {
    pub success: bool,
    pub message: String,
    pub regenerated_count: Option<usize>,
}

impl RecoveryResult {
    /// Summary of a run that regenerated `regenerated` thumbnails and failed on
    /// `failed`: a success when nothing failed; a run with nothing to do says so.
    pub fn from_counts(regenerated: usize, failed: usize) -> (r: RecoveryResult)
        ensures
            r.success == (failed == 0),
            r.regenerated_count == Some(regenerated),
            regenerated == 0 && failed == 0 ==> r.message@ == "No missing thumbnails found"@,
            !(regenerated == 0 && failed == 0) ==> r.message@ == "Regenerated "@ + decimal_digits(
                regenerated as nat,
            ) + " thumbnails successfully. "@ + decimal_digits(failed as nat) + " failed."@,
    {
        if regenerated == 0 && failed == 0 {
            return RecoveryResult {
                success: true,
                message: text("No missing thumbnails found"),
                regenerated_count: Some(0),
            };
        }
        let mut m = text("Regenerated ");
        push_decimal(&mut m, regenerated);
        push_text(&mut m, " thumbnails successfully. ");
        push_decimal(&mut m, failed);
        push_text(&mut m, " failed.");
        RecoveryResult { success: failed == 0, message: m, regenerated_count: Some(regenerated) }
    }
}

} // verus!

verus! {

/// What became of one item of a tagging batch.
#[derive(Clone, Copy, Debug, PartialEq, Eq, Structural)]
pub enum TaggingLookup {
    /// The store has no item with this content key.
    NotInStore,
    /// The item's original file is gone.
    OriginalMissing,
    /// Classification succeeded and this many tags were newly linked.
    Tagged(usize),
    /// Classification or persistence failed.
    Failed,
}

pub open spec fn tagging_outcome(lookup: TaggingLookup) -> ItemOutcome {
    match lookup {
        TaggingLookup::NotInStore | TaggingLookup::OriginalMissing => ItemOutcome::Skipped,
        TaggingLookup::Tagged(_) => ItemOutcome::Completed,
        TaggingLookup::Failed => ItemOutcome::Failed,
    }
}

/// Counts of a tagging batch: items by outcome and tags added.
#[derive(Clone, Copy, Debug, PartialEq, Eq, Structural)]
pub struct TaggingBatch {
    pub items: BatchTally,
    pub tags_added: usize,
}

impl TaggingBatch {
    pub fn new(total: usize) -> (b: TaggingBatch)
        ensures
            b.items == (BatchTally { total, completed: 0, skipped: 0, failed: 0 }),
            b.tags_added == 0,
    {
        TaggingBatch { items: BatchTally::new(total), tags_added: 0 }
    }

    /// Counts one finished item and returns the notification for it. A
    /// failure is reported and the batch goes on.
    pub fn step(&mut self, lookup: TaggingLookup, file_hash: &str) -> (e: ProgressEvent)
        requires
            old(self).items.finished() < old(self).items.total,
            match lookup {
                TaggingLookup::Tagged(n) => old(self).tags_added + n <= usize::MAX,
                _ => true,
            },
        ensures
            final(self).items.total == old(self).items.total,
            final(self).items.completed == old(self).items.completed + if tagging_outcome(lookup)
                == ItemOutcome::Completed {
                1int
            } else {
                0int
            },
            final(self).items.skipped == old(self).items.skipped + if tagging_outcome(lookup)
                == ItemOutcome::Skipped {
                1int
            } else {
                0int
            },
            final(self).items.failed == old(self).items.failed + if tagging_outcome(lookup)
                == ItemOutcome::Failed {
                1int
            } else {
                0int
            },
            final(self).tags_added == old(self).tags_added + match lookup {
                TaggingLookup::Tagged(n) => n as int,
                _ => 0int,
            },
            e.message@ == match lookup {
                TaggingLookup::NotInStore => "Skipped "@ + file_hash@ + ": not found in database"@,
                TaggingLookup::OriginalMissing => "Skipped "@ + file_hash@
                    + ": original file not found"@,
                TaggingLookup::Tagged(n) => "AI tagging complete for "@ + file_hash@ + " ("@
                    + decimal_digits(final(self).items.completed as nat) + "/"@ + decimal_digits(
                    final(self).items.total as nat,
                ) + "): "@ + decimal_digits(n as nat) + " tags added"@,
                TaggingLookup::Failed => "AI tagging error for "@ + file_hash@,
            },
            e.stage@ == match tagging_outcome(lookup) {
                ItemOutcome::Completed => "complete"@,
                ItemOutcome::Skipped => "skipped"@,
                ItemOutcome::Failed => "error"@,
            },
            e.current == Some(final(self).items.completed),
            e.total == Some(final(self).items.total),
            e.file_hash is Some && e.file_hash->0@ == file_hash@,
    {
        let mut message = String::new();
        let stage;
        match lookup {
            TaggingLookup::NotInStore => {
                self.items.record(ItemOutcome::Skipped);
                stage = text("skipped");
                push_text(&mut message, "Skipped ");
                push_text(&mut message, file_hash);
                push_text(&mut message, ": not found in database");
            },
            TaggingLookup::OriginalMissing => {
                self.items.record(ItemOutcome::Skipped);
                stage = text("skipped");
                push_text(&mut message, "Skipped ");
                push_text(&mut message, file_hash);
                push_text(&mut message, ": original file not found");
            },
            TaggingLookup::Tagged(n) => {
                self.items.record(ItemOutcome::Completed);
                self.tags_added = self.tags_added + n;
                stage = text("complete");
                push_text(&mut message, "AI tagging complete for ");
                push_text(&mut message, file_hash);
                push_text(&mut message, " (");
                push_decimal(&mut message, self.items.completed);
                push_text(&mut message, "/");
                push_decimal(&mut message, self.items.total);
                push_text(&mut message, "): ");
                push_decimal(&mut message, n);
                push_text(&mut message, " tags added");
            },
            TaggingLookup::Failed => {
                self.items.record(ItemOutcome::Failed);
                stage = text("error");
                push_text(&mut message, "AI tagging error for ");
                push_text(&mut message, file_hash);
            },
        }
        ProgressEvent {
            stage,
            message,
            file_hash: Some(text(file_hash)),
            current: Some(self.items.completed),
            total: Some(self.items.total),
        }
    }
}

} // verus!

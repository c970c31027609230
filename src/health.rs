use crate::preprocess::{decode_rgba, decoded_image};
use crate::strings::{decimal_digits, push_decimal, push_text, text};
use vstd::prelude::*;

verus! {

/// Health of one library item, judged from its original file and thumbnail.
#[derive(Clone, Copy, Debug, PartialEq, Eq, Structural)]
pub enum ImageHealthStatus {
    Healthy,
    ThumbnailMissing,
    OriginalMissing,
    BothMissing,
    OriginalCorrupted,
    ThumbnailCorrupted,
}

/// Stored thumbnail health code: the thumbnail is usable.
pub const THUMBNAIL_HEALTHY: i64 = 0;
/// Stored thumbnail health code: the thumbnail is missing.
pub const THUMBNAIL_MISSING: i64 = 1;
/// Stored thumbnail health code: the thumbnail is corrupted.
pub const THUMBNAIL_CORRUPTED: i64 = 2;

/// Verdict for one item and its stored thumbnail code. Corruption flags are
/// read only for files that exist.
pub open spec fn health_verdict(
    original_exists: bool,
    thumbnail_exists: bool,
    original_corrupted: bool,
    thumbnail_corrupted: bool,
) -> (ImageHealthStatus, i64) {
    if original_exists && thumbnail_exists {
        if thumbnail_corrupted {
            (ImageHealthStatus::ThumbnailCorrupted, THUMBNAIL_CORRUPTED)
        } else if original_corrupted {
            (ImageHealthStatus::OriginalCorrupted, THUMBNAIL_HEALTHY)
        } else {
            (ImageHealthStatus::Healthy, THUMBNAIL_HEALTHY)
        }
    } else if thumbnail_exists {
        if thumbnail_corrupted {
            (ImageHealthStatus::ThumbnailCorrupted, THUMBNAIL_CORRUPTED)
        } else {
            (ImageHealthStatus::OriginalMissing, THUMBNAIL_HEALTHY)
        }
    } else if original_exists {
        (ImageHealthStatus::ThumbnailMissing, THUMBNAIL_MISSING)
    } else {
        (ImageHealthStatus::BothMissing, THUMBNAIL_MISSING)
    }
}

/// Judges one item from what exists on disk and what failed to decode.
pub fn decide_health(
    original_exists: bool,
    thumbnail_exists: bool,
    original_corrupted: bool,
    thumbnail_corrupted: bool,
) -> (r: (ImageHealthStatus, i64))
    ensures
        r == health_verdict(original_exists, thumbnail_exists, original_corrupted, thumbnail_corrupted),
{
    if original_exists && thumbnail_exists {
        if thumbnail_corrupted {
            (ImageHealthStatus::ThumbnailCorrupted, THUMBNAIL_CORRUPTED)
        } else if original_corrupted {
            (ImageHealthStatus::OriginalCorrupted, THUMBNAIL_HEALTHY)
        } else {
            (ImageHealthStatus::Healthy, THUMBNAIL_HEALTHY)
        }
    } else if thumbnail_exists {
        if thumbnail_corrupted {
            (ImageHealthStatus::ThumbnailCorrupted, THUMBNAIL_CORRUPTED)
        } else {
            (ImageHealthStatus::OriginalMissing, THUMBNAIL_HEALTHY)
        }
    } else if original_exists {
        (ImageHealthStatus::ThumbnailMissing, THUMBNAIL_MISSING)
    } else {
        (ImageHealthStatus::BothMissing, THUMBNAIL_MISSING)
    }
}

pub open spec fn original_missing(status: ImageHealthStatus) -> bool {
    status == ImageHealthStatus::OriginalMissing || status == ImageHealthStatus::BothMissing
        || status == ImageHealthStatus::OriginalCorrupted
}

/// Stored "missing" flag of an item: 1 when its original is gone or unusable.
pub fn missing_flag(status: ImageHealthStatus) -> (r: i64)
    ensures
        r == if original_missing(status) { 1i64 } else { 0i64 },
{
    match status {
        ImageHealthStatus::OriginalMissing
        | ImageHealthStatus::BothMissing
        | ImageHealthStatus::OriginalCorrupted => 1,
        _ => 0,
    }
}

/// The bytes open with a RIFF container header of WebP type.
pub open spec fn webp_header(b: Seq<u8>) -> bool {
    &&& b.len() >= 12
    &&& b[0] == 82u8 && b[1] == 73u8 && b[2] == 70u8 && b[3] == 70u8
    &&& b[8] == 87u8 && b[9] == 69u8 && b[10] == 66u8 && b[11] == 80u8
}

/// Checks for the `RIFF....WEBP` header.
pub fn has_webp_header(b: &[u8]) -> (r: bool)
    ensures
        r == webp_header(b@),
{
    b.len() >= 12 && b[0] == 82u8 && b[1] == 73u8 && b[2] == 70u8 && b[3] == 70u8 && b[8] == 87u8
        && b[9] == 69u8 && b[10] == 66u8 && b[11] == 80u8
}

/// A thumbnail is corrupted when it cannot be read, lacks the WebP header, or
/// does not decode.
pub open spec fn thumbnail_corrupted(contents: Option<Seq<u8>>) -> bool {
    match contents {
        None => true,
        Some(b) => !webp_header(b) || decoded_image(b) is None,
    }
}

/// An original is corrupted when it cannot be read or does not decode.
pub open spec fn original_corrupted(contents: Option<Seq<u8>>) -> bool {
    match contents {
        None => true,
        Some(b) => decoded_image(b) is None,
    }
}

/// Judges a thumbnail's bytes; `None` stands for a file that could not be read.
pub fn is_webp_corrupted(contents: Option<&[u8]>) -> (r: bool)
    ensures
        r == thumbnail_corrupted(
            match contents {
                Some(b) => Some(b@),
                None => None,
            },
        ),
{
    match contents {
        None => true,
        Some(b) => {
            if !has_webp_header(b) {
                true
            } else {
                decode_rgba(b).is_none()
            }
        },
    }
}

/// Judges an original's bytes; `None` stands for a file that could not be read.
pub fn is_image_corrupted(contents: Option<&[u8]>) -> (r: bool)
    ensures
        r == original_corrupted(
            match contents {
                Some(b) => Some(b@),
                None => None,
            },
        ),
{
    match contents {
        None => true,
        Some(b) => decode_rgba(b).is_none(),
    }
}

/// Progress is reported for every tenth item and for the last one.
pub open spec fn reports_progress(index: nat, total: nat) -> bool {
    index % 10 == 0 || index + 1 == total
}

pub fn should_report_progress(index: usize, total: usize) -> (r: bool)
    ensures
        r == reports_progress(index as nat, total as nat),
{
    index % 10 == 0 || index as u128 + 1 == total as u128
}

/// Thumbnail recovery reports every fifth item and the last one.
pub fn should_report_recovery(index: usize, total: usize) -> (r: bool)
    ensures
        r == (index % 5 == 0 || index + 1 == total),
{
    index % 5 == 0 || index as u128 + 1 == total as u128
}

/// The checker pauses briefly after every fiftieth item but the last.
pub fn should_pause(index: usize, total: usize) -> (r: bool)
    ensures
        r == (index % 50 == 49 && index + 1 < total),
{
    index % 50 == 49 && (index as u128) + 1 < total as u128
}

/// Counts of one health-check run.
#[derive(Clone, Copy, Debug, PartialEq, Eq, Structural)]
pub struct HealthCheckResult {
    pub total_checked: usize,
    pub healthy_count: usize,
    pub issues_found: usize,
    pub thumbnail_missing_count: usize,
    pub original_missing_count: usize,
    pub thumbnail_corrupted_count: usize,
    pub original_corrupted_count: usize,
    pub both_missing_count: usize,
    pub has_missing_originals: bool,
}

/// Counts after one more item: `Some(status)` for an item that was judged,
/// `None` for one whose check failed (counted as a corrupted thumbnail).
pub open spec fn tallied(r: HealthCheckResult, outcome: Option<ImageHealthStatus>) -> HealthCheckResult {
    match outcome {
        None => HealthCheckResult {
            issues_found: (r.issues_found + 1) as usize,
            thumbnail_corrupted_count: (r.thumbnail_corrupted_count + 1) as usize,
            ..r
        },
        Some(status) => {
            let r1 = HealthCheckResult { total_checked: (r.total_checked + 1) as usize, ..r };
            match status {
                ImageHealthStatus::Healthy => HealthCheckResult {
                    healthy_count: (r1.healthy_count + 1) as usize,
                    ..r1
                },
                ImageHealthStatus::ThumbnailMissing => HealthCheckResult {
                    issues_found: (r1.issues_found + 1) as usize,
                    thumbnail_missing_count: (r1.thumbnail_missing_count + 1) as usize,
                    ..r1
                },
                ImageHealthStatus::OriginalMissing => HealthCheckResult {
                    issues_found: (r1.issues_found + 1) as usize,
                    original_missing_count: (r1.original_missing_count + 1) as usize,
                    has_missing_originals: true,
                    ..r1
                },
                ImageHealthStatus::BothMissing => HealthCheckResult {
                    issues_found: (r1.issues_found + 1) as usize,
                    both_missing_count: (r1.both_missing_count + 1) as usize,
                    has_missing_originals: true,
                    ..r1
                },
                ImageHealthStatus::OriginalCorrupted => HealthCheckResult {
                    issues_found: (r1.issues_found + 1) as usize,
                    original_corrupted_count: (r1.original_corrupted_count + 1) as usize,
                    ..r1
                },
                ImageHealthStatus::ThumbnailCorrupted => HealthCheckResult {
                    issues_found: (r1.issues_found + 1) as usize,
                    thumbnail_corrupted_count: (r1.thumbnail_corrupted_count + 1) as usize,
                    ..r1
                },
            }
        },
    }
}

/// Every counter of `r` is at most `n`.
pub open spec fn counters_within(r: HealthCheckResult, n: nat) -> bool {
    &&& r.total_checked <= n
    &&& r.healthy_count <= n
    &&& r.issues_found <= n
    &&& r.thumbnail_missing_count <= n
    &&& r.original_missing_count <= n
    &&& r.thumbnail_corrupted_count <= n
    &&& r.original_corrupted_count <= n
    &&& r.both_missing_count <= n
}

impl HealthCheckResult {
    /// Counts of a run that has checked nothing yet.
    pub fn new() -> (r: HealthCheckResult)
        ensures
            counters_within(r, 0),
            !r.has_missing_originals,
    {
        HealthCheckResult {
            total_checked: 0,
            healthy_count: 0,
            issues_found: 0,
            thumbnail_missing_count: 0,
            original_missing_count: 0,
            thumbnail_corrupted_count: 0,
            original_corrupted_count: 0,
            both_missing_count: 0,
            has_missing_originals: false,
        }
    }

    /// Counts one more item.
    pub fn record(&mut self, outcome: Option<ImageHealthStatus>)
        requires
            counters_within(*old(self), (usize::MAX - 1) as nat),
        ensures
            *final(self) == tallied(*old(self), outcome),
    {
        match outcome {
            None => {
                self.issues_found = self.issues_found + 1;
                self.thumbnail_corrupted_count = self.thumbnail_corrupted_count + 1;
            },
            Some(status) => {
                self.total_checked = self.total_checked + 1;
                match status {
                    ImageHealthStatus::Healthy => {
                        self.healthy_count = self.healthy_count + 1;
                    },
                    ImageHealthStatus::ThumbnailMissing => {
                        self.issues_found = self.issues_found + 1;
                        self.thumbnail_missing_count = self.thumbnail_missing_count + 1;
                    },
                    ImageHealthStatus::OriginalMissing => {
                        self.issues_found = self.issues_found + 1;
                        self.original_missing_count = self.original_missing_count + 1;
                        self.has_missing_originals = true;
                    },
                    ImageHealthStatus::BothMissing => {
                        self.issues_found = self.issues_found + 1;
                        self.both_missing_count = self.both_missing_count + 1;
                        self.has_missing_originals = true;
                    },
                    ImageHealthStatus::OriginalCorrupted => {
                        self.issues_found = self.issues_found + 1;
                        self.original_corrupted_count = self.original_corrupted_count + 1;
                    },
                    ImageHealthStatus::ThumbnailCorrupted => {
                        self.issues_found = self.issues_found + 1;
                        self.thumbnail_corrupted_count = self.thumbnail_corrupted_count + 1;
                    },
                }
            },
        }
    }
}

/// Counts of a whole run, item by item.
pub open spec fn tally_all(outcomes: Seq<Option<ImageHealthStatus>>) -> HealthCheckResult
    decreases outcomes.len(),
{
    if outcomes.len() == 0 {
        HealthCheckResult {
            total_checked: 0,
            healthy_count: 0,
            issues_found: 0,
            thumbnail_missing_count: 0,
            original_missing_count: 0,
            thumbnail_corrupted_count: 0,
            original_corrupted_count: 0,
            both_missing_count: 0,
            has_missing_originals: false,
        }
    } else {
        tallied(tally_all(outcomes.drop_last()), outcomes.last())
    }
}

proof fn lemma_tally_bounded(outcomes: Seq<Option<ImageHealthStatus>>)
    ensures
        counters_within(tally_all(outcomes), outcomes.len()),
    decreases outcomes.len(),
{
    if outcomes.len() > 0 {
        lemma_tally_bounded(outcomes.drop_last());
    }
}

/// Every item of a run is counted once: as judged (healthy or with an
/// issue) or as a failed check, which is an issue too.
pub proof fn lemma_tally_accounts_for_every_item(outcomes: Seq<Option<ImageHealthStatus>>)
    requires
        outcomes.len() <= usize::MAX,
    ensures
        tally_all(outcomes).healthy_count + tally_all(outcomes).issues_found == outcomes.len(),
        tally_all(outcomes).issues_found == tally_all(outcomes).thumbnail_missing_count
            + tally_all(outcomes).original_missing_count + tally_all(
            outcomes,
        ).thumbnail_corrupted_count + tally_all(outcomes).original_corrupted_count + tally_all(
            outcomes,
        ).both_missing_count,
    decreases outcomes.len(),
{
    lemma_tally_bounded(outcomes);
    if outcomes.len() > 0 {
        lemma_tally_accounts_for_every_item(outcomes.drop_last());
        lemma_tally_bounded(outcomes.drop_last());
    }
}

/// Counts of a run whose items came out as `outcomes`.
pub fn tally_health(outcomes: &Vec<Option<ImageHealthStatus>>) -> (r: HealthCheckResult)
    ensures
        r == tally_all(outcomes@),
{
    let mut r = HealthCheckResult::new();
    let mut i: usize = 0;
    while i < outcomes.len()
        invariant
            0 <= i <= outcomes.len(),
            r == tally_all(outcomes@.take(i as int)),
        decreases outcomes.len() - i,
    {
        proof {
            lemma_tally_bounded(outcomes@.take(i as int));
            assert(outcomes@.take(i as int + 1).drop_last() =~= outcomes@.take(i as int));
        }
        r.record(outcomes[i]);
        i = i + 1;
    }
    assert(outcomes@.take(outcomes.len() as int) =~= outcomes@);
    r
}

/// Progress notification of a health-check run.
#[derive(Clone, Debug)]
pub struct HealthCheckProgressEvent {
    pub stage: String,
    pub message: String,
    pub file_hash: Option<String>,
    pub current: Option<usize>,
    pub total: Option<usize>,
    pub status: Option<ImageHealthStatus>,
}

/// Health record of one stored item.
#[derive(Clone, Debug)]
pub struct FileHealthStatus {
    pub file_hash: String,
    pub original_path: String,
    pub health_status: ImageHealthStatus,
    pub thumbnail_health: i64,
    pub last_health_check: i64,
}

/// Where the health checker looks for thumbnails.
#[derive(Clone, Debug)]
pub struct ImageHealthChecker {
    thumbnail_dir: String,
}

impl ImageHealthChecker {
    pub closed spec fn dir(&self) -> Seq<char> {
        self.thumbnail_dir@
    }

    /// A checker whose thumbnails live in `thumbnail_dir`.
    pub fn new(thumbnail_dir: String) -> (c: ImageHealthChecker)
        ensures
            c.dir() == thumbnail_dir@,
    {
        ImageHealthChecker { thumbnail_dir }
    }

    /// `<thumbnail_dir>/<file_hash>.webp`.
    pub fn get_thumbnail_path(&self, file_hash: &str) -> (r: String)
        ensures
            r@ == self.dir() + "/"@ + file_hash@ + ".webp"@,
    {
        let mut p = self.thumbnail_dir.clone();
        push_text(&mut p, "/");
        push_text(&mut p, file_hash);
        push_text(&mut p, ".webp");
        p
    }
}

} // verus!

verus! {

/// A stored item with its recorded health.
#[derive(Clone, Debug)]
pub struct FileWithHealthStatus {
    pub file_hash: String,
    pub original_path: String,
    pub file_size_bytes: i64,
    pub file_last_modified: i64,
    pub width: i64,
    pub height: i64,
    pub date_imported: i64,
    pub is_missing: i64,
    pub thumbnail_health: i64,
    pub last_health_check: Option<i64>,
}

/// Which stored items a health listing shows.
#[derive(Clone, Copy, Debug, PartialEq, Eq, Structural)]
pub enum HealthFilter {
    OriginalMissing,
    ThumbnailMissing,
    ThumbnailCorrupted,
    Healthy,
    AllWithIssues,
}

pub open spec fn filter_admits(f: HealthFilter, is_missing: i64, thumbnail_health: i64) -> bool {
    match f {
        HealthFilter::OriginalMissing => is_missing == 1,
        HealthFilter::ThumbnailMissing => thumbnail_health == THUMBNAIL_MISSING,
        HealthFilter::ThumbnailCorrupted => thumbnail_health == THUMBNAIL_CORRUPTED,
        HealthFilter::Healthy => is_missing == 0 && thumbnail_health == THUMBNAIL_HEALTHY,
        HealthFilter::AllWithIssues => is_missing == 1 || thumbnail_health != THUMBNAIL_HEALTHY,
    }
}

impl HealthFilter {
    /// Whether the listing shows `file`.
    pub fn admits(&self, file: &FileWithHealthStatus) -> (r: bool)
        ensures
            r == filter_admits(*self, file.is_missing, file.thumbnail_health),
    {
        match self {
            HealthFilter::OriginalMissing => file.is_missing == 1,
            HealthFilter::ThumbnailMissing => file.thumbnail_health == THUMBNAIL_MISSING,
            HealthFilter::ThumbnailCorrupted => file.thumbnail_health == THUMBNAIL_CORRUPTED,
            HealthFilter::Healthy => file.is_missing == 0 && file.thumbnail_health
                == THUMBNAIL_HEALTHY,
            HealthFilter::AllWithIssues => file.is_missing == 1 || file.thumbnail_health
                != THUMBNAIL_HEALTHY,
        }
    }
}

} // verus!

verus! {

impl HealthCheckProgressEvent {
    /// Notification that a run over `total` items starts.
    pub fn starting(total: usize) -> (e: HealthCheckProgressEvent)
        ensures
            e.stage@ == "starting"@,
            e.message@ == "Starting health check for "@ + decimal_digits(total as nat) + " files"@,
            e.current == Some(0usize),
            e.total == Some(total),
            e.file_hash is None,
            e.status is None,
    {
        let mut message = text("Starting health check for ");
        push_decimal(&mut message, total);
        push_text(&mut message, " files");
        HealthCheckProgressEvent {
            stage: text("starting"),
            message,
            file_hash: None,
            current: Some(0),
            total: Some(total),
            status: None,
        }
    }

    /// Notification that a recovery of `total` missing thumbnails starts.
    pub fn regenerating(total: usize) -> (e: HealthCheckProgressEvent)
        ensures
            e.stage@ == "regenerating_thumbnails"@,
            e.message@ == "Regenerating "@ + decimal_digits(total as nat) + " missing thumbnails"@,
            e.current == Some(0usize),
            e.total == Some(total),
            e.file_hash is None,
            e.status is None,
    {
        let mut message = text("Regenerating ");
        push_decimal(&mut message, total);
        push_text(&mut message, " missing thumbnails");
        HealthCheckProgressEvent {
            stage: text("regenerating_thumbnails"),
            message,
            file_hash: None,
            current: Some(0),
            total: Some(total),
            status: None,
        }
    }

    /// Notification that item `index` (counted from zero) of `total` is checked
    /// by `stage`.
    pub fn item(stage: &str, index: usize, total: usize, file_hash: &str) -> (e: HealthCheckProgressEvent)
        requires
            index < total,
        ensures
            e.stage@ == stage@,
            e.message@ == "Item "@ + decimal_digits(index as nat + 1) + " of "@ + decimal_digits(
                total as nat,
            ),
            e.current == Some((index + 1) as usize),
            e.total == Some(total),
            e.file_hash is Some && e.file_hash->0@ == file_hash@,
            e.status is None,
    {
        let mut message = text("Item ");
        push_decimal(&mut message, index + 1);
        push_text(&mut message, " of ");
        push_decimal(&mut message, total);
        HealthCheckProgressEvent {
            stage: text(stage),
            message,
            file_hash: Some(text(file_hash)),
            current: Some(index + 1),
            total: Some(total),
            status: None,
        }
    }
}

} // verus!

verus! {

/// How many stored items satisfy `f`.
pub open spec fn count_matching(rows: Seq<FileWithHealthStatus>, f: spec_fn(FileWithHealthStatus) -> bool) -> nat
    decreases rows.len(),
{
    if rows.len() == 0 {
        0
    } else {
        count_matching(rows.drop_last(), f) + if f(rows.last()) {
            1nat
        } else {
            0nat
        }
    }
}

proof fn lemma_count_bounded(rows: Seq<FileWithHealthStatus>, f: spec_fn(FileWithHealthStatus) -> bool)
    ensures
        count_matching(rows, f) <= rows.len(),
    decreases rows.len(),
{
    if rows.len() > 0 {
        lemma_count_bounded(rows.drop_last(), f);
    }
}

pub open spec fn is_healthy_row(r: FileWithHealthStatus) -> bool {
    r.is_missing == 0 && r.thumbnail_health == THUMBNAIL_HEALTHY
}

pub open spec fn thumbnail_missing_row(r: FileWithHealthStatus) -> bool {
    r.thumbnail_health == THUMBNAIL_MISSING
}

pub open spec fn thumbnail_corrupted_row(r: FileWithHealthStatus) -> bool {
    r.thumbnail_health == THUMBNAIL_CORRUPTED
}

pub open spec fn original_missing_row(r: FileWithHealthStatus) -> bool {
    r.is_missing == 1
}

pub open spec fn both_missing_row(r: FileWithHealthStatus) -> bool {
    r.is_missing == 1 && r.thumbnail_health == THUMBNAIL_MISSING
}

/// Library-wide health counts from the recorded health of every item. The
/// issue count adds the missing-thumbnail, corrupted-thumbnail and
/// missing-original counts; corrupted originals are not recorded apart.
pub fn summarize_health(rows: &Vec<FileWithHealthStatus>) -> (r: HealthCheckResult)
    requires
        rows.len() <= usize::MAX / 3,
    ensures
        r.total_checked == rows.len(),
        r.healthy_count == count_matching(rows@, |x: FileWithHealthStatus| is_healthy_row(x)),
        r.thumbnail_missing_count == count_matching(rows@, |x: FileWithHealthStatus| thumbnail_missing_row(x)),
        r.thumbnail_corrupted_count == count_matching(rows@, |x: FileWithHealthStatus| thumbnail_corrupted_row(x)),
        r.original_missing_count == count_matching(rows@, |x: FileWithHealthStatus| original_missing_row(x)),
        r.both_missing_count == count_matching(rows@, |x: FileWithHealthStatus| both_missing_row(x)),
        r.original_corrupted_count == 0,
        r.issues_found == r.thumbnail_missing_count + r.thumbnail_corrupted_count
            + r.original_missing_count,
        r.has_missing_originals == (r.original_missing_count > 0),
{
    let ghost fh = |x: FileWithHealthStatus| is_healthy_row(x);
    let ghost ftm = |x: FileWithHealthStatus| thumbnail_missing_row(x);
    let ghost ftc = |x: FileWithHealthStatus| thumbnail_corrupted_row(x);
    let ghost fom = |x: FileWithHealthStatus| original_missing_row(x);
    let ghost fbm = |x: FileWithHealthStatus| both_missing_row(x);
    let mut healthy: usize = 0;
    let mut tm: usize = 0;
    let mut tc: usize = 0;
    let mut om: usize = 0;
    let mut bm: usize = 0;
    let mut i: usize = 0;
    while i < rows.len()
        invariant
            0 <= i <= rows.len(),
            rows.len() <= usize::MAX / 3,
            fh == (|x: FileWithHealthStatus| is_healthy_row(x)),
            ftm == (|x: FileWithHealthStatus| thumbnail_missing_row(x)),
            ftc == (|x: FileWithHealthStatus| thumbnail_corrupted_row(x)),
            fom == (|x: FileWithHealthStatus| original_missing_row(x)),
            fbm == (|x: FileWithHealthStatus| both_missing_row(x)),
            healthy == count_matching(rows@.take(i as int), fh),
            tm == count_matching(rows@.take(i as int), ftm),
            tc == count_matching(rows@.take(i as int), ftc),
            om == count_matching(rows@.take(i as int), fom),
            bm == count_matching(rows@.take(i as int), fbm),
        decreases rows.len() - i,
    {
        proof {
            lemma_count_bounded(rows@.take(i as int), fh);
            lemma_count_bounded(rows@.take(i as int), ftm);
            lemma_count_bounded(rows@.take(i as int), ftc);
            lemma_count_bounded(rows@.take(i as int), fom);
            lemma_count_bounded(rows@.take(i as int), fbm);
            assert(rows@.take(i as int + 1).drop_last() =~= rows@.take(i as int));
            assert(rows@.take(i as int + 1).last() == rows@[i as int]);
        }
        let r = &rows[i];
        if r.is_missing == 0 && r.thumbnail_health == THUMBNAIL_HEALTHY {
            healthy = healthy + 1;
        }
        if r.thumbnail_health == THUMBNAIL_MISSING {
            tm = tm + 1;
        }
        if r.thumbnail_health == THUMBNAIL_CORRUPTED {
            tc = tc + 1;
        }
        if r.is_missing == 1 {
            om = om + 1;
        }
        if r.is_missing == 1 && r.thumbnail_health == THUMBNAIL_MISSING {
            bm = bm + 1;
        }
        i = i + 1;
    }
    proof {
        assert(rows@.take(rows.len() as int) =~= rows@);
        lemma_count_bounded(rows@, ftm);
        lemma_count_bounded(rows@, ftc);
        lemma_count_bounded(rows@, fom);
    }
    HealthCheckResult {
        total_checked: rows.len(),
        healthy_count: healthy,
        issues_found: tm + tc + om,
        thumbnail_missing_count: tm,
        original_missing_count: om,
        thumbnail_corrupted_count: tc,
        original_corrupted_count: 0,
        both_missing_count: bm,
        has_missing_originals: om > 0,
    }
}

} // verus!

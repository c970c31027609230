use image_tagger::health::{
    decide_health, has_webp_header, is_image_corrupted, is_webp_corrupted, missing_flag,
    should_pause, should_report_progress, should_report_recovery, tally_health, FileWithHealthStatus, HealthCheckProgressEvent,
    HealthFilter, ImageHealthChecker, ImageHealthStatus, summarize_health,
};

fn webp_bytes() -> Vec<u8> {
    let img = image::RgbImage::from_pixel(4, 4, image::Rgb([9, 8, 7]));
    let mut out = std::io::Cursor::new(Vec::new());
    img.write_to(&mut out, image::ImageFormat::WebP).unwrap();
    out.into_inner()
}

fn png_bytes() -> Vec<u8> {
    let img = image::RgbImage::from_pixel(2, 2, image::Rgb([9, 8, 7]));
    let mut out = std::io::Cursor::new(Vec::new());
    img.write_to(&mut out, image::ImageFormat::Png).unwrap();
    out.into_inner()
}

#[test]
fn health_verdicts() {
    assert_eq!(decide_health(true, true, false, false), (ImageHealthStatus::Healthy, 0));
    assert_eq!(decide_health(true, true, true, false), (ImageHealthStatus::OriginalCorrupted, 0));
    assert_eq!(decide_health(true, true, false, true), (ImageHealthStatus::ThumbnailCorrupted, 2));
    assert_eq!(decide_health(true, true, true, true), (ImageHealthStatus::ThumbnailCorrupted, 2));
    assert_eq!(decide_health(false, true, false, false), (ImageHealthStatus::OriginalMissing, 0));
    assert_eq!(decide_health(false, true, false, true), (ImageHealthStatus::ThumbnailCorrupted, 2));
    assert_eq!(decide_health(true, false, false, false), (ImageHealthStatus::ThumbnailMissing, 1));
    assert_eq!(decide_health(false, false, false, false), (ImageHealthStatus::BothMissing, 1));
}

#[test]
fn missing_flags() {
    assert_eq!(missing_flag(ImageHealthStatus::OriginalMissing), 1);
    assert_eq!(missing_flag(ImageHealthStatus::BothMissing), 1);
    assert_eq!(missing_flag(ImageHealthStatus::OriginalCorrupted), 1);
    assert_eq!(missing_flag(ImageHealthStatus::Healthy), 0);
    assert_eq!(missing_flag(ImageHealthStatus::ThumbnailCorrupted), 0);
}

#[test]
fn webp_header_check() {
    assert!(has_webp_header(b"RIFF\x00\x00\x00\x00WEBPVP8 "));
    assert!(!has_webp_header(b"RIFF\x00\x00\x00\x00WEBX"));
    assert!(!has_webp_header(b"RIFF"));
}

#[test]
fn webp_corruption() {
    assert!(is_webp_corrupted(None));
    assert!(is_webp_corrupted(Some(b"short")));
    assert!(is_webp_corrupted(Some(b"RIFF\x10\x00\x00\x00WEBPjunkjunkjunk")));
    assert!(is_webp_corrupted(Some(&png_bytes())));
    assert!(!is_webp_corrupted(Some(&webp_bytes())));
}

#[test]
fn original_corruption() {
    assert!(is_image_corrupted(None));
    assert!(is_image_corrupted(Some(b"garbage")));
    assert!(!is_image_corrupted(Some(&png_bytes())));
    assert!(!is_image_corrupted(Some(&webp_bytes())));
}

#[test]
fn progress_schedule() {
    assert!(should_report_progress(0, 25));
    assert!(!should_report_progress(1, 25));
    assert!(should_report_progress(10, 25));
    assert!(should_report_progress(24, 25));
    assert!(should_pause(49, 100));
    assert!(!should_pause(49, 50));
    assert!(!should_pause(48, 100));
    assert!(should_report_recovery(5, 7));
    assert!(should_report_recovery(6, 7));
    assert!(!should_report_recovery(4, 7));
}

#[test]
fn tally_counts_each_kind() {
    let r = tally_health(&vec![
        Some(ImageHealthStatus::Healthy),
        Some(ImageHealthStatus::Healthy),
        Some(ImageHealthStatus::ThumbnailMissing),
        Some(ImageHealthStatus::OriginalMissing),
        Some(ImageHealthStatus::BothMissing),
        Some(ImageHealthStatus::OriginalCorrupted),
        Some(ImageHealthStatus::ThumbnailCorrupted),
        None,
    ]);
    assert_eq!(r.total_checked, 7);
    assert_eq!(r.healthy_count, 2);
    assert_eq!(r.issues_found, 6);
    assert_eq!(r.thumbnail_missing_count, 1);
    assert_eq!(r.original_missing_count, 1);
    assert_eq!(r.both_missing_count, 1);
    assert_eq!(r.original_corrupted_count, 1);
    assert_eq!(r.thumbnail_corrupted_count, 2);
    assert!(r.has_missing_originals);
    let clean = tally_health(&vec![Some(ImageHealthStatus::Healthy)]);
    assert!(!clean.has_missing_originals);
    assert_eq!(clean.issues_found, 0);
}

#[test]
fn thumbnail_path() {
    let c = ImageHealthChecker::new("/data/thumbnails".to_string());
    assert_eq!(c.get_thumbnail_path("abc123"), "/data/thumbnails/abc123.webp");
}

#[test]
fn progress_events() {
    let s = HealthCheckProgressEvent::starting(12);
    assert_eq!(s.stage, "starting");
    assert_eq!(s.message, "Starting health check for 12 files");
    assert_eq!((s.current, s.total), (Some(0), Some(12)));
    let e = HealthCheckProgressEvent::item("checking", 9, 12, "h9");
    assert_eq!(e.message, "Item 10 of 12");
    assert_eq!(e.current, Some(10));
    assert_eq!(e.file_hash.as_deref(), Some("h9"));
}

#[test]
fn health_filters() {
    let f = |is_missing: i64, thumbnail_health: i64| FileWithHealthStatus {
        file_hash: "h".to_string(),
        original_path: "p".to_string(),
        file_size_bytes: 1,
        file_last_modified: 0,
        width: 1,
        height: 1,
        date_imported: 0,
        is_missing,
        thumbnail_health,
        last_health_check: None,
    };
    assert!(HealthFilter::Healthy.admits(&f(0, 0)));
    assert!(!HealthFilter::Healthy.admits(&f(1, 0)));
    assert!(HealthFilter::OriginalMissing.admits(&f(1, 0)));
    assert!(HealthFilter::ThumbnailMissing.admits(&f(0, 1)));
    assert!(HealthFilter::ThumbnailCorrupted.admits(&f(0, 2)));
    assert!(HealthFilter::AllWithIssues.admits(&f(0, 2)));
    assert!(!HealthFilter::AllWithIssues.admits(&f(0, 0)));
}

fn row(is_missing: i64, thumbnail_health: i64) -> FileWithHealthStatus {
    FileWithHealthStatus {
        file_hash: "h".to_string(),
        original_path: "p".to_string(),
        file_size_bytes: 1,
        file_last_modified: 0,
        width: 1,
        height: 1,
        date_imported: 0,
        is_missing,
        thumbnail_health,
        last_health_check: Some(0),
    }
}

#[test]
fn library_health_summary() {
    let r = summarize_health(&vec![row(0, 0), row(0, 1), row(1, 1), row(0, 2)]);
    assert_eq!(r.total_checked, 4);
    assert_eq!(r.healthy_count, 1);
    assert_eq!(r.thumbnail_missing_count, 2);
    assert_eq!(r.thumbnail_corrupted_count, 1);
    assert_eq!(r.original_missing_count, 1);
    assert_eq!(r.both_missing_count, 1);
    assert_eq!(r.original_corrupted_count, 0);
    assert_eq!(r.issues_found, 4);
    assert!(r.has_missing_originals);
    let empty = summarize_health(&vec![]);
    assert_eq!(empty.total_checked, 0);
    assert!(!empty.has_missing_originals);
}

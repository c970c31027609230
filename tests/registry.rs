use image_tagger::digest::{calculate_blake3_hash, calculate_file_hash, verify_hash};
use image_tagger::error::ModelError;
use image_tagger::labels::parse_label_catalog;
use image_tagger::registry::{select_models_dir, AISettings, DirCandidate, LoadSlot, ModelRegistry};
use image_tagger::tagging::InferenceParams;

#[test]
fn load_outcome_is_kept() {
    let mut s: LoadSlot<u32> = LoadSlot::new();
    assert!(s.needs_load());
    s.resolve(Err(ModelError::ModelNotFound));
    assert!(!s.needs_load());
    s.resolve(Ok(7));
    assert!(!s.is_loaded());
    assert_eq!(s.error(), Some(ModelError::ModelNotFound));
    assert!(s.get().is_none());
}

#[test]
fn availability_needs_both_artifacts() {
    let mut r: ModelRegistry<u8> = ModelRegistry::new();
    assert!(!r.is_model_available());
    r.labels.resolve(parse_label_catalog("h\n0,general,9,1\n1,solo,0,1\n"));
    assert!(!r.is_model_available());
    assert_eq!(
        r.classify_confidences(&vec![900_000, 900_000], &InferenceParams::default()).err(),
        Some(ModelError::NotAvailable)
    );
    r.model.resolve(Ok(1));
    assert!(r.is_model_available());
    let tags = r.classify_confidences(&vec![900_000, 800_000], &InferenceParams::default()).unwrap();
    let got: Vec<(String, u32)> = tags.into_iter().map(|t| (t.name, t.confidence)).collect();
    assert_eq!(got, vec![("general".to_string(), 900_000), ("solo".to_string(), 800_000)]);
    assert!(r.reload_model().is_ok());
    assert!(r.is_model_available());
}

#[test]
fn model_status_report() {
    let mut r: ModelRegistry<u8> = ModelRegistry::new();
    r.labels.resolve(Err(ModelError::LabelMapEmpty));
    r.model.resolve(Ok(0));
    let s = r.get_model_status("/m", true, false);
    assert_eq!(s.model_file_path, "/m/swin-v2-tagger-v3.onnx");
    assert_eq!(s.csv_file_path, "/m/selected_tags.csv");
    assert!(s.model_file_exists && !s.csv_file_exists);
    assert!(!s.label_map_loaded && s.model_session_loaded);
    assert_eq!(s.label_map_error, Some(ModelError::LabelMapEmpty));
    assert_eq!(s.model_session_error, None);
}

#[test]
fn first_existing_models_dir_wins() {
    let c = |p: &str, e: bool| DirCandidate { path: p.to_string(), exists: e };
    assert_eq!(select_models_dir(&vec![c("/a", false), c("/b", true), c("/c", true)]).unwrap(), "/b");
    let e = select_models_dir(&vec![c("/a", false), c("/b", false)]).unwrap_err();
    assert_eq!(e.tried, vec!["/a".to_string(), "/b".to_string()]);
    assert!(select_models_dir(&vec![]).unwrap_err().tried.is_empty());
}

#[test]
fn ai_enabled_by_default() {
    assert!(AISettings::default().ai_enabled);
}

#[test]
fn content_key_is_blake3_hex() {
    assert_eq!(
        calculate_blake3_hash(b"abc"),
        "6437b3ac38465133ffb63b75273a8db548c558465d79db03fd359c6cd5bd9d85"
    );
}

#[test]
fn artifact_digest_is_sha256_hex() {
    assert_eq!(
        calculate_file_hash(b"abc"),
        "ba7816bf8f01cfea414140de5dae2223b00361a396177a9cb410ff61f20015ad"
    );
}

#[test]
fn hash_verification() {
    assert!(matches!(verify_hash("aa", None), Ok(true)));
    assert!(matches!(verify_hash("aa", Some("aa")), Ok(true)));
    let e = verify_hash("aa", Some("ab")).unwrap_err();
    assert_eq!(e.expected, "ab");
    assert_eq!(e.calculated, "aa");
}

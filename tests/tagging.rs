use image_tagger::labels::{Category, LabelCatalog, LabelEntry};
use image_tagger::tagging::{categorize_predictions, rank_tags, InferenceParams};

fn entry(name: &str, category: Category) -> LabelEntry {
    LabelEntry { name: name.to_string(), category }
}

fn catalog() -> LabelCatalog {
    let mut c = LabelCatalog::new();
    c.insert(0, entry("general", Category::Rating));
    c.insert(1, entry("sensitive", Category::Rating));
    c.insert(2, entry("explicit", Category::Rating));
    c.insert(3, entry("1girl", Category::General));
    c.insert(4, entry("solo", Category::General));
    c.insert(5, entry("smile", Category::General));
    c.insert(6, entry("hatsune_miku", Category::Character));
    c.insert(7, entry("kagamine_rin", Category::Character));
    c.insert(8, entry("artist_x", Category::Other));
    c
}

fn names(tags: &[image_tagger::tagging::TagPrediction]) -> Vec<(String, u32)> {
    tags.iter().map(|t| (t.name.clone(), t.confidence)).collect()
}

#[test]
fn default_params_match_documented_defaults() {
    let p = InferenceParams::default();
    assert_eq!(p.general_threshold, 350_000);
    assert_eq!(p.character_threshold, 850_000);
    assert!(!p.general_mcut_enabled);
    assert!(!p.character_mcut_enabled);
    assert_eq!(p.max_tags, 50);
}

#[test]
fn ranks_rating_general_and_character() {
    let probs = vec![100_000, 700_000, 200_000, 900_000, 400_000, 300_000, 950_000, 800_000, 990_000];
    let tags = rank_tags(&probs, &catalog(), &InferenceParams::default());
    assert_eq!(
        names(&tags),
        vec![
            ("hatsune_miku".to_string(), 950_000),
            ("1girl".to_string(), 900_000),
            ("sensitive".to_string(), 700_000),
            ("solo".to_string(), 400_000),
        ]
    );
}

#[test]
fn rating_yields_exactly_one_tag_even_below_thresholds() {
    let probs = vec![10_000, 20_000, 15_000, 0, 0, 0, 0, 0, 0];
    let tags = rank_tags(&probs, &catalog(), &InferenceParams::default());
    assert_eq!(names(&tags), vec![("sensitive".to_string(), 20_000)]);
}

#[test]
fn rating_tie_keeps_first_index() {
    let probs = vec![500_000, 500_000, 100_000, 0, 0, 0, 0, 0, 0];
    let tags = rank_tags(&probs, &catalog(), &InferenceParams::default());
    assert_eq!(names(&tags), vec![("general".to_string(), 500_000)]);
}

#[test]
fn no_rating_candidate_yields_no_rating_tag() {
    let mut c = LabelCatalog::new();
    c.insert(0, entry("solo", Category::General));
    let tags = rank_tags(&vec![900_000], &c, &InferenceParams::default());
    assert_eq!(names(&tags), vec![("solo".to_string(), 900_000)]);
    let none = rank_tags(&vec![100_000], &c, &InferenceParams::default());
    assert!(none.is_empty());
}

#[test]
fn final_list_is_capped_and_sorted() {
    let probs = vec![100_000, 700_000, 200_000, 900_000, 400_000, 300_000, 950_000, 800_000, 990_000];
    let mut params = InferenceParams::default();
    params.max_tags = 2;
    let tags = rank_tags(&probs, &catalog(), &params);
    assert_eq!(names(&tags), vec![("hatsune_miku".to_string(), 950_000), ("1girl".to_string(), 900_000)]);
    params.max_tags = 0;
    assert!(rank_tags(&probs, &catalog(), &params).is_empty());
}

#[test]
fn equal_confidence_keeps_category_order() {
    let probs = vec![600_000, 0, 0, 600_000, 0, 0, 900_000, 0, 0];
    let tags = rank_tags(&probs, &catalog(), &InferenceParams::default());
    assert_eq!(
        names(&tags),
        vec![
            ("hatsune_miku".to_string(), 900_000),
            ("general".to_string(), 600_000),
            ("1girl".to_string(), 600_000),
        ]
    );
}

#[test]
fn mcut_for_general_and_floor_for_character() {
    let probs = vec![0, 0, 900_000, 800_000, 750_000, 100_000, 140_000, 120_000, 0];
    let mut params = InferenceParams::default();
    params.general_mcut_enabled = true;
    params.character_mcut_enabled = true;
    let tags = rank_tags(&probs, &catalog(), &params);
    // general drops are 50000 then 650000: keep 1girl and solo; characters stay under the floor
    assert_eq!(
        names(&tags),
        vec![
            ("explicit".to_string(), 900_000),
            ("1girl".to_string(), 800_000),
            ("solo".to_string(), 750_000),
        ]
    );
}

#[test]
fn outputs_without_label_are_ignored() {
    let probs = vec![100_000, 700_000, 200_000, 900_000, 400_000, 300_000, 950_000, 800_000, 990_000, 999_000];
    let tags = rank_tags(&probs, &catalog(), &InferenceParams::default());
    assert_eq!(tags.len(), 4);
}

#[test]
fn categorize_splits_and_sorts() {
    let probs = vec![100_000, 700_000, 200_000, 900_000, 400_000, 300_000, 950_000, 800_000, 990_000];
    let c = categorize_predictions(&probs, &catalog());
    let r: Vec<usize> = c.rating.iter().map(|d| d.index).collect();
    assert_eq!(r, vec![1, 2, 0]);
    let g: Vec<usize> = c.general.iter().map(|d| d.index).collect();
    assert_eq!(g, vec![3, 4, 5]);
    let ch: Vec<usize> = c.character.iter().map(|d| d.index).collect();
    assert_eq!(ch, vec![6, 7]);
    assert_eq!(c.all.len(), 9);
    assert_eq!(c.all[0].name, "artist_x");
    assert_eq!(c.all[0].category, Category::Other);
    assert_eq!(c.all[0].tag_id, 8);
}

#[test]
fn a_tag_name_appears_once() {
    let mut c = LabelCatalog::new();
    c.insert(0, entry("x", Category::General));
    c.insert(1, entry("y", Category::General));
    c.insert(2, entry("x", Category::Character));
    c.insert(3, entry("x", Category::General));
    let probs = vec![500_000, 600_000, 900_000, 800_000];
    let tags = rank_tags(&probs, &c, &InferenceParams::default());
    assert_eq!(names(&tags), vec![("x".to_string(), 900_000), ("y".to_string(), 600_000)]);
    let mut params = InferenceParams::default();
    params.max_tags = 1;
    assert_eq!(names(&rank_tags(&probs, &c, &params)), vec![("x".to_string(), 900_000)]);
}

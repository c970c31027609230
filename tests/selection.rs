use image_tagger::selection::{apply_mcut_threshold, apply_threshold_filter};

#[test]
fn mcut_cuts_at_widest_gap() {
    let p = vec![(0usize, 900_000u32), (1, 850_000), (2, 300_000), (3, 250_000)];
    assert_eq!(apply_mcut_threshold(p), vec![0, 1]);
}

#[test]
fn mcut_sorts_before_cutting() {
    let p = vec![(7usize, 250_000u32), (3, 850_000), (5, 300_000), (1, 900_000)];
    assert_eq!(apply_mcut_threshold(p), vec![1, 3]);
}

#[test]
fn mcut_on_empty_list_is_empty() {
    assert_eq!(apply_mcut_threshold(Vec::new()), Vec::<usize>::new());
}

#[test]
fn mcut_on_flat_list_keeps_first() {
    let p = vec![(4usize, 500_000u32), (2, 500_000), (9, 500_000)];
    assert_eq!(apply_mcut_threshold(p), vec![4]);
}

#[test]
fn threshold_filter_is_inclusive() {
    let p = vec![(0usize, 600_000u32), (1, 500_000), (2, 490_000)];
    assert_eq!(apply_threshold_filter(&p, 500_000, false, None), vec![0, 1]);
}

#[test]
fn mcut_with_floor_drops_low_candidates() {
    let p = vec![(0usize, 200_000u32), (1, 190_000), (2, 140_000), (3, 130_000)];
    // widest drop is between 190000 and 140000: MCut keeps 0 and 1, both above the floor
    assert_eq!(apply_threshold_filter(&p, 850_000, true, Some(150_000)), vec![0, 1]);
    let q = vec![(0usize, 140_000u32), (1, 130_000), (2, 10_000)];
    assert_eq!(apply_threshold_filter(&q, 850_000, true, Some(150_000)), Vec::<usize>::new());
}

use image_tagger::error::ModelError;
use image_tagger::labels::{parse_label_catalog, scan_label_catalog, Category};
use image_tagger::registry::load_label_map;

#[test]
fn parses_rows_after_header() {
    let text = "tag_id,name,category,count\n0,general,9,100\n1,1girl,0,50\n2,hatsune_miku,4,10\n3,artist,1,5\n";
    let c = parse_label_catalog(text).unwrap();
    assert_eq!(c.len(), 4);
    let e = c.get(2).unwrap();
    assert_eq!(e.name, "hatsune_miku");
    assert_eq!(e.category, Category::Character);
    assert_eq!(c.get(0).unwrap().category, Category::Rating);
    assert_eq!(c.get(1).unwrap().category, Category::General);
    assert_eq!(c.get(3).unwrap().category, Category::Other);
    assert!(c.get(4).is_none());
}

#[test]
fn skips_malformed_rows() {
    let text = "tag_id,name,category,count\nx,bad,0,1\n5,short,0\n6,badcat,zz,1\n7,good,0,1\n-1,neg,0,1\n";
    let c = parse_label_catalog(text).unwrap();
    assert_eq!(c.len(), 1);
    assert_eq!(c.get(7).unwrap().name, "good");
}

#[test]
fn header_row_is_never_a_label() {
    let text = "0,header_like,0,1\n1,real,0,1";
    let c = parse_label_catalog(text).unwrap();
    assert_eq!(c.len(), 1);
    assert!(c.get(0).is_none());
    assert_eq!(c.get(1).unwrap().name, "real");
}

#[test]
fn crlf_line_endings_and_plus_sign() {
    let text = "h\r\n+3,three,4,1\r\n4,four,9,2\r\n";
    let c = parse_label_catalog(text).unwrap();
    assert_eq!(c.get(3).unwrap().name, "three");
    assert_eq!(c.get(4).unwrap().category, Category::Rating);
}

#[test]
fn later_row_replaces_earlier_index() {
    let text = "h\n1,first,0,1\n1,second,4,1\n";
    let c = parse_label_catalog(text).unwrap();
    assert_eq!(c.len(), 1);
    assert_eq!(c.get(1).unwrap().name, "second");
    assert_eq!(c.get(1).unwrap().category, Category::Character);
}

#[test]
fn category_code_overflow_skips_row() {
    let text = "h\n1,big,4294967296,1\n2,max,4294967295,1\n";
    let c = parse_label_catalog(text).unwrap();
    assert!(c.get(1).is_none());
    assert_eq!(c.get(2).unwrap().category, Category::Other);
}

#[test]
fn empty_catalog_is_an_error() {
    assert_eq!(parse_label_catalog("").err(), Some(ModelError::LabelMapEmpty));
    assert_eq!(parse_label_catalog("tag_id,name,category,count\n").err(), Some(ModelError::LabelMapEmpty));
    assert_eq!(parse_label_catalog("h\nbad,row\n").err(), Some(ModelError::LabelMapEmpty));
}

#[test]
fn load_label_map_error_kinds() {
    assert_eq!(load_label_map(false, None).err(), Some(ModelError::LabelMapNotFound));
    assert_eq!(load_label_map(true, None).err(), Some(ModelError::LabelMapUnreadable));
    assert_eq!(load_label_map(true, Some("h\n")).err(), Some(ModelError::LabelMapEmpty));
    assert_eq!(load_label_map(true, Some("h\n0,a,0,1\n")).unwrap().len(), 1);
}

#[test]
fn index_overflow_skips_row() {
    let text = "h\n18446744073709551616,too_big,0,1\n18446744073709551615,largest,0,1\n";
    let c = parse_label_catalog(text).unwrap();
    assert_eq!(c.len(), 1);
    assert_eq!(c.get(usize::MAX).unwrap().name, "largest");
}

#[test]
fn skipped_rows_are_counted() {
    let text = "tag_id,name,category,count\nx,bad,0,1\n5,short,0\n6,badcat,zz,1\n7,good,0,1\n7,again,4,1\n";
    let (c, skipped) = scan_label_catalog(text);
    assert_eq!(skipped, 3);
    assert_eq!(c.len(), 1);
    assert_eq!(scan_label_catalog("").1, 0);
    assert_eq!(scan_label_catalog("header only\n").1, 0);
}

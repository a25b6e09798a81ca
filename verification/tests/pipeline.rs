use coleus::anchors::insert_anchors;
use coleus::links::PageIndex;
use coleus::metadata::{
    extract_category_metadata, extract_entry_metadata, parse_category_metadata,
    parse_entry_metadata, parse_page_metadata, strip_metadata,
};
use coleus::MetaError;

#[test]
fn extraction_returns_embedded_metadata_exactly() {
    let doc = "Intro text\n\n```json\n{\"title\": \"My Page\"}\n```\n\nBody text";
    let (meta, cleaned) = strip_metadata(doc).unwrap();
    assert_eq!(meta.title, "My Page");
    // the block is removed exactly once, everything else survives re-serialization
    assert_eq!(cleaned, "Intro text\n\nBody text");
}

#[test]
fn extraction_keeps_other_code_blocks() {
    let doc = "```rust\nlet x = 1;\n```\n\n```json\n{\"title\": \"T\"}\n```";
    let (meta, cleaned) = strip_metadata(doc).unwrap();
    assert_eq!(meta.title, "T");
    assert!(cleaned.contains("let x = 1;"));
    assert!(!cleaned.contains("title"));
}

#[test]
fn missing_metadata_block_is_reported() {
    let doc = "Just some *markdown* with no block.";
    assert_eq!(strip_metadata(doc).unwrap_err(), MetaError::MetadataMissing);
}

#[test]
fn malformed_metadata_is_reported() {
    let doc = "```json\nnot valid json\n```";
    assert_eq!(strip_metadata(doc).unwrap_err(), MetaError::MetadataInvalid);
}

#[test]
fn metadata_without_title_is_reported() {
    let doc = "```json\n{\"icon\": \"star\"}\n```";
    assert_eq!(strip_metadata(doc).unwrap_err(), MetaError::MetadataInvalid);
}

#[test]
fn page_metadata_parses_title() {
    let meta = parse_page_metadata("{\"title\": \"Alpha\"}").unwrap();
    assert_eq!(meta.title, "Alpha");
}

#[test]
fn category_metadata_parses_all_fields() {
    let meta = parse_category_metadata(
        "{\"title\": \"Cat\", \"icon\": \"leaf\", \"ordinal\": 3, \"parent\": \"root\"}",
    )
    .unwrap();
    assert_eq!(meta.title, "Cat");
    assert_eq!(meta.icon.as_deref(), Some("leaf"));
    assert_eq!(meta.ordinal, Some(3));
    assert_eq!(meta.parent.as_deref(), Some("root"));
}

#[test]
fn entry_metadata_optional_fields_default() {
    let meta = parse_entry_metadata("{\"title\": \"E\"}").unwrap();
    assert_eq!(meta.title, "E");
    assert!(meta.icon.is_none());
    assert!(meta.ordinal.is_none());
    assert!(meta.category.is_none());
}

#[test]
fn entry_metadata_rejects_wrong_ordinal_type() {
    let r = parse_entry_metadata("{\"title\": \"E\", \"ordinal\": \"five\"}");
    assert_eq!(r.unwrap_err(), MetaError::MetadataInvalid);
}

#[test]
fn entry_metadata_rejects_oversized_ordinal() {
    let r = parse_entry_metadata("{\"title\": \"E\", \"ordinal\": 4294967296}");
    assert_eq!(r.unwrap_err(), MetaError::MetadataInvalid);
}

#[test]
fn category_extraction_from_document() {
    let doc = "```json\n{\"title\": \"Blocks\", \"ordinal\": 1}\n```\n";
    let meta = extract_category_metadata(doc).unwrap();
    assert_eq!(meta.title, "Blocks");
    assert_eq!(meta.ordinal, Some(1));
}

#[test]
fn entry_extraction_reads_category_reference() {
    let doc = "```json\n{\"title\": \"Copper\", \"category\": \"lavender:metals\"}\n```\nText";
    let meta = extract_entry_metadata(doc).unwrap();
    assert_eq!(meta.category.as_deref(), Some("lavender:metals"));
}

#[test]
fn anchor_insertion_without_sentinels_is_noop() {
    let stable = "Hello\n\nWorld";
    assert_eq!(insert_anchors(stable).unwrap(), stable);
}

#[test]
fn anchors_are_numbered_in_encounter_order() {
    let doc = "One\n\n;;;;;\n\nTwo\n\n;;;;;\n\nThree";
    let out = insert_anchors(doc).unwrap();
    let first = out.find("<a id=\"1\"></a>").expect("first anchor");
    let second = out.find("<a id=\"2\"></a>").expect("second anchor");
    assert!(first < second);
    assert!(!out.contains(";;;;;"));
    assert!(out.contains("One"));
    assert!(out.contains("Two"));
    assert!(out.contains("Three"));
}

#[test]
fn partial_sentinel_matches_are_kept() {
    let doc = "almost ;;;; here";
    let out = insert_anchors(doc).unwrap();
    assert!(!out.contains("<a id="));
}

#[test]
fn page_index_lookup() {
    let mut idx = PageIndex::new();
    idx.insert("alpha".to_string(), "entries/a.md".to_string());
    idx.insert("beta".to_string(), "entries/sub/b.md".to_string());
    assert_eq!(idx.lookup("alpha").unwrap(), "entries/a.md");
    assert!(idx.lookup("gamma").is_none());
}

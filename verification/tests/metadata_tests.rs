use tile_engine::errors::TileError;
use tile_engine::{assemble_metadata, generate_metadata, PageInfo, TileMetadata};

fn sample_pages() -> Vec<PageInfo> {
    vec![PageInfo {
        page: 0,
        width: 1000,
        height: 1000,
        tiles: vec![
            TileMetadata { x: 0, y: 0, hash: "abc123".to_string() },
            TileMetadata { x: 1, y: 0, hash: "def456".to_string() },
        ],
    }]
}

#[test]
fn test_generate_metadata() {
    let pages = sample_pages();

    let metadata = generate_metadata(&pages, 512).unwrap();

    assert!(metadata.contains("version"));
    assert!(metadata.contains("tile_size"));
    assert!(metadata.contains("pages"));
}

#[test]
fn document_shape() {
    let pages = sample_pages();
    let metadata = generate_metadata(&pages, 512).unwrap();

    let doc: serde_json::Value = serde_json::from_str(&metadata).unwrap();
    assert!(doc["version"].is_u64());
    assert_eq!(doc["tile_size"], 512);
    assert_eq!(doc["pages"].as_array().unwrap().len(), 1);
    assert_eq!(doc["pages"][0]["tiles"].as_array().unwrap().len(), 2);
    assert_eq!(doc["pages"][0]["page"], 0);
    assert_eq!(doc["pages"][0]["width"], 1000);
    assert_eq!(doc["pages"][0]["tiles"][1]["x"], 1);
    assert_eq!(doc["pages"][0]["tiles"][1]["hash"], "def456");
}

#[test]
fn exact_serialized_form() {
    let pages = sample_pages();
    let metadata = assemble_metadata(&pages, 512, 1234).unwrap();

    assert_eq!(
        metadata,
        "{\"version\":1234,\"tile_size\":512,\"pages\":[{\"page\":0,\"width\":1000,\
         \"height\":1000,\"tiles\":[{\"x\":0,\"y\":0,\"hash\":\"abc123\"},\
         {\"x\":1,\"y\":0,\"hash\":\"def456\"}]}]}"
    );
}

#[test]
fn empty_page_list() {
    let pages: Vec<PageInfo> = Vec::new();
    let metadata = assemble_metadata(&pages, 256, 7).unwrap();
    assert_eq!(metadata, "{\"version\":7,\"tile_size\":256,\"pages\":[]}");
}

#[test]
fn quote_in_hash_is_rejected() {
    let pages = vec![PageInfo {
        page: 0,
        width: 10,
        height: 10,
        tiles: vec![TileMetadata { x: 0, y: 0, hash: "bad\"hash".to_string() }],
    }];
    let result = generate_metadata(&pages, 128);
    assert!(matches!(result, Err(TileError::MetadataParseError { .. })));
}

#[test]
fn non_ascii_hash_is_rejected() {
    let pages = vec![PageInfo {
        page: 0,
        width: 10,
        height: 10,
        tiles: vec![TileMetadata { x: 0, y: 0, hash: "h\u{00e9}llo".to_string() }],
    }];
    let result = assemble_metadata(&pages, 128, 1);
    assert!(matches!(result, Err(TileError::MetadataParseError { .. })));
}

#[test]
fn version_stamp_is_present_and_numeric() {
    let pages = sample_pages();
    let metadata = generate_metadata(&pages, 64).unwrap();
    let doc: serde_json::Value = serde_json::from_str(&metadata).unwrap();
    assert!(doc["version"].as_u64().is_some());
}

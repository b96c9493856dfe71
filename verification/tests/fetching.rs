use imghost::fetch::{
    assemble, covers, into_payloads, order_by_index, parse_request, plan_fetch, require_header, starts_with,
    static_asset, FetchPlan, StaticAsset,
};
use imghost::metadata::{metadata_fields, to_decimal};
use imghost::types::{ChunkDoc, HeaderDoc, StoreError};

fn header(id: &str, content_type: &str, ext: &str, total: u32) -> HeaderDoc {
    HeaderDoc {
        id: id.to_string(),
        delete_key: "k".repeat(32),
        content_type: content_type.to_string(),
        file_extension: ext.to_string(),
        content_length: 40,
        uploaded_at: 1_700_000_000_123,
        total_chunks: total,
    }
}

fn chunk(index: i32, data: &[u8]) -> ChunkDoc {
    ChunkDoc { parent_id: "abc123".to_string(), index, data: data.to_vec() }
}

#[test]
fn request_key_stops_at_the_first_dot() {
    assert_eq!(parse_request("abc123"), ("abc123".to_string(), false));
    assert_eq!(parse_request("abc123.png"), ("abc123".to_string(), true));
    assert_eq!(parse_request("abc123.tar.gz"), ("abc123".to_string(), true));
    assert_eq!(parse_request("abc123."), ("abc123".to_string(), true));
    assert_eq!(parse_request(".png"), ("".to_string(), true));
    assert_eq!(parse_request(""), ("".to_string(), false));
    assert_eq!(parse_request("héllo.png"), ("héllo".to_string(), true));
}

#[test]
fn static_assets_have_their_own_names() {
    assert_eq!(static_asset("favicon.ico"), Some(StaticAsset::Favicon));
    assert_eq!(static_asset("github.png"), Some(StaticAsset::GithubLogo));
    assert_eq!(static_asset("github"), None);
    assert_eq!(static_asset("favicon"), None);
    assert_eq!(static_asset("abc123.png"), None);
}

#[test]
fn starts_with_checks_the_prefix() {
    assert!(starts_with("image/png", "image/"));
    assert!(starts_with("image/", "image/"));
    assert!(starts_with("anything", ""));
    assert!(!starts_with("imag", "image/"));
    assert!(!starts_with("application/pdf", "image/"));
    assert!(!starts_with("ximage/png", "image/"));
}

#[test]
fn missing_header_is_not_found() {
    assert_eq!(require_header(None).unwrap_err(), StoreError::NotFound);
    let found = require_header(Some(header("abc123", "image/png", "png", 3))).unwrap();
    assert_eq!(found.id, "abc123");
}

#[test]
fn fetch_plan_follows_request_and_type() {
    let image = header("abc123", "image/png", "png", 3);
    let pdf = header("abc123", "application/pdf", "pdf", 3);
    assert!(matches!(plan_fetch(&image, false, true), FetchPlan::Metadata));
    assert!(matches!(plan_fetch(&image, true, true), FetchPlan::Metadata));
    assert!(matches!(plan_fetch(&image, true, false), FetchPlan::Content));
    assert!(matches!(plan_fetch(&pdf, false, false), FetchPlan::Content));
    assert!(matches!(plan_fetch(&pdf, true, false), FetchPlan::Content));
    match plan_fetch(&image, false, false) {
        FetchPlan::ViewerPage { filename } => assert_eq!(filename, "abc123.png"),
        other => panic!("expected the viewer page, got {:?}", other),
    }
    match plan_fetch(&header("abc123", "image/x-odd", "", 3), false, false) {
        FetchPlan::ViewerPage { filename } => assert_eq!(filename, "abc123.ukn"),
        other => panic!("expected the viewer page, got {:?}", other),
    }
}

#[test]
fn fragments_are_ordered_by_position() {
    let sorted = order_by_index(vec![chunk(2, b"c"), chunk(0, b"a"), chunk(1, b"b")]);
    let order: Vec<i32> = sorted.iter().map(|c| c.index).collect();
    assert_eq!(order, vec![0, 1, 2]);
    assert_eq!(into_payloads(sorted), vec![b"a".to_vec(), b"b".to_vec(), b"c".to_vec()]);
}

#[test]
fn equal_positions_keep_their_order() {
    let sorted = order_by_index(vec![
        chunk(1, b"x"),
        chunk(0, b"first"),
        chunk(1, b"y"),
        chunk(0, b"second"),
        chunk(-3, b"neg"),
    ]);
    let data: Vec<Vec<u8>> = sorted.into_iter().map(|c| c.data).collect();
    assert_eq!(
        data,
        vec![b"neg".to_vec(), b"first".to_vec(), b"second".to_vec(), b"x".to_vec(), b"y".to_vec()]
    );
}

#[test]
fn assemble_joins_in_position_order() {
    let h = header("abc123", "image/png", "png", 3);
    let bytes = assemble(&h, vec![chunk(1, b"bb"), chunk(2, b"c"), chunk(0, b"aaa")]).unwrap();
    assert_eq!(bytes, b"aaabbc".to_vec());
}

#[test]
fn assemble_reports_missing_fragments() {
    let h = header("abc123", "image/png", "png", 3);
    assert_eq!(assemble(&h, Vec::new()).unwrap_err(), StoreError::ChunkConsistencyError);
}

#[test]
fn assemble_never_returns_two_of_three_fragments() {
    let h = header("abc123", "image/png", "png", 3);
    let short = vec![chunk(0, b"aaa"), chunk(1, b"bb")];
    assert_eq!(assemble(&h, short).unwrap_err(), StoreError::ChunkConsistencyError);
    let without_first = vec![chunk(1, b"bb"), chunk(2, b"c")];
    assert_eq!(assemble(&h, without_first).unwrap_err(), StoreError::ChunkConsistencyError);
}

#[test]
fn assemble_reports_a_gap_or_a_fragment_twice() {
    let h = header("abc123", "image/png", "png", 3);
    let gap = vec![chunk(0, b"aaa"), chunk(1, b"bb"), chunk(3, b"c")];
    assert_eq!(assemble(&h, gap).unwrap_err(), StoreError::ChunkConsistencyError);
    let twice = vec![chunk(0, b"aaa"), chunk(1, b"bb"), chunk(1, b"bb")];
    assert_eq!(assemble(&h, twice).unwrap_err(), StoreError::ChunkConsistencyError);
    let negative = vec![chunk(-1, b"x"), chunk(0, b"aaa"), chunk(1, b"bb")];
    assert_eq!(assemble(&h, negative).unwrap_err(), StoreError::ChunkConsistencyError);
}

#[test]
fn assemble_reports_more_fragments_than_the_header_counts() {
    let h = header("abc123", "image/png", "png", 2);
    let extra = vec![chunk(0, b"aaa"), chunk(1, b"bb"), chunk(2, b"c")];
    assert_eq!(assemble(&h, extra).unwrap_err(), StoreError::ChunkConsistencyError);
    let none_counted = header("abc123", "image/png", "png", 0);
    assert_eq!(
        assemble(&none_counted, vec![chunk(0, b"aaa")]).unwrap_err(),
        StoreError::ChunkConsistencyError
    );
}

#[test]
fn covers_wants_every_position_once_in_order() {
    let h = header("abc123", "image/png", "png", 3);
    assert!(covers(&h, &[chunk(0, b"a"), chunk(1, b"b"), chunk(2, b"c")]));
    assert!(!covers(&h, &[chunk(0, b"a"), chunk(2, b"c"), chunk(1, b"b")]));
    assert!(!covers(&h, &[chunk(0, b"a"), chunk(1, b"b")]));
    assert!(!covers(&h, &[chunk(1, b"a"), chunk(2, b"b"), chunk(3, b"c")]));
    assert!(covers(&header("abc123", "image/png", "png", 0), &[]));
}

#[test]
fn assemble_of_a_header_without_fragments_is_empty() {
    let h = header("abc123", "image/png", "png", 0);
    assert_eq!(assemble(&h, Vec::new()).unwrap(), Vec::<u8>::new());
}

#[test]
fn decimal_numerals() {
    assert_eq!(to_decimal(0), "0");
    assert_eq!(to_decimal(7), "7");
    assert_eq!(to_decimal(10), "10");
    assert_eq!(to_decimal(1_700_000_000_123), "1700000000123");
    assert_eq!(to_decimal(u64::MAX), "18446744073709551615");
    for n in 0..2000u64 {
        assert_eq!(to_decimal(n), n.to_string());
    }
}

#[test]
fn metadata_fields_in_order() {
    let fields = metadata_fields(&header("abc123", "image/png", "png", 3));
    let expected = vec![
        ("content-type".to_string(), "image/png".to_string()),
        ("content-length".to_string(), "40".to_string()),
        ("X-ID".to_string(), "abc123".to_string()),
        ("X-CHUNKS".to_string(), "3".to_string()),
        ("X-UPLOADED-AT".to_string(), "1700000000123".to_string()),
    ];
    assert_eq!(fields, expected);
}

#[test]
fn error_codes() {
    assert_eq!(StoreError::EmptyBlob.code(), "empty_body");
    assert_eq!(StoreError::UnclassifiableContent.code(), "invalid_file_type");
    assert_eq!(StoreError::InvalidIdentifier.code(), "invalid_id");
    assert_eq!(StoreError::IdentifierTaken.code(), "id_taken");
    assert_eq!(StoreError::NotFound.code(), "not_found");
    assert_eq!(StoreError::ChunkConsistencyError.code(), "chunk_error");
    assert_eq!(StoreError::Unauthorized.code(), "invalid_dkey");
    assert_eq!(StoreError::BackingStoreFailure.code(), "internal_server_error");
}

#[test]
fn cloned_header_has_the_same_fields() {
    let h = header("abc123", "image/png", "png", 3);
    let c = h.clone();
    assert_eq!(c.id, h.id);
    assert_eq!(c.delete_key, h.delete_key);
    assert_eq!(c.content_type, h.content_type);
    assert_eq!(c.file_extension, h.file_extension);
    assert_eq!(c.content_length, h.content_length);
    assert_eq!(c.uploaded_at, h.uploaded_at);
    assert_eq!(c.total_chunks, h.total_chunks);
}

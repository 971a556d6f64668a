use lu_cache::options::{check_compression_level, version_name};

#[test]
fn compression_levels_end_at_nine() {
    assert_eq!(check_compression_level(0).ok(), Some(0));
    assert_eq!(check_compression_level(9).ok(), Some(9));
    assert_eq!(check_compression_level(10).unwrap_err().level, 10);
    assert_eq!(
        check_compression_level(12).unwrap_err().message(),
        "Compression level must be 0-9, got 12"
    );
}

#[test]
fn version_is_named_by_its_number() {
    assert_eq!(version_name(82, None), "82");
    assert_eq!(version_name(82, Some("live".to_string())), "live");
    assert_eq!(version_name(82, Some(String::new())), "");
}

use flat_head::store::{new, resolve_parts, ConfigError, ReadOptions, Store, StoreKind};

#[test]
fn file_url_resolves_to_local_store() {
    let store = new("file:///data/chunks", false, None).unwrap();
    match &store.kind {
        StoreKind::Local { prefix } => assert_eq!(prefix, "/data/chunks"),
        _ => panic!("expected a local store"),
    }
    assert_eq!(store.base, "");
    assert!(!store.decompress);
}

#[test]
fn bare_path_resolves_to_local_store() {
    let store = new("archive/chunks", true, None).unwrap();
    match &store.kind {
        StoreKind::Local { prefix } => assert_eq!(prefix, "archive/chunks"),
        _ => panic!("expected a local store"),
    }
    assert!(store.decompress);
}

#[test]
fn s3_url_takes_bucket_from_host_and_base_from_path() {
    let store = new("s3://era-archive/mainnet/flat", true, None).unwrap();
    match &store.kind {
        StoreKind::S3 { bucket } => assert_eq!(bucket, "era-archive"),
        _ => panic!("expected an S3 store"),
    }
    assert_eq!(store.base, "mainnet/flat");
}

#[test]
fn gs_url_takes_bucket_from_host() {
    let store = new("gs://era-archive", false, None).unwrap();
    match &store.kind {
        StoreKind::Gcs { bucket } => assert_eq!(bucket, "era-archive"),
        _ => panic!("expected a GCS store"),
    }
    assert_eq!(store.base, "");
}

#[test]
fn http_url_resolves_to_http_endpoint() {
    let store = new("http://archive.example:8080/era", false, None).unwrap();
    match &store.kind {
        StoreKind::Http { endpoint, allow_http } => {
            assert_eq!(endpoint, "http://archive.example:8080");
            assert!(*allow_http);
        }
        _ => panic!("expected an HTTP store"),
    }
}

#[test]
fn https_url_uses_the_default_port() {
    let store = new("https://archive.example/era", false, None).unwrap();
    match &store.kind {
        StoreKind::Http { endpoint, allow_http } => {
            assert_eq!(endpoint, "https://archive.example:443");
            assert!(!*allow_http);
        }
        _ => panic!("expected an HTTP store"),
    }
}

#[test]
fn s3_compatible_hint_selects_the_s3_dialect() {
    let store = new("http://seaweed.local:9000/era-bucket", true, Some("s3".to_string())).unwrap();
    match &store.kind {
        StoreKind::S3Compatible { endpoint, bucket, allow_http } => {
            assert_eq!(endpoint, "http://seaweed.local:9000");
            assert_eq!(bucket, "era-bucket");
            assert!(*allow_http);
        }
        _ => panic!("expected an S3-compatible store"),
    }
}

#[test]
fn s3_compatible_bucket_is_the_first_path_segment() {
    let store = new(
        "http://seaweed.local:9000/era-bucket/mainnet/flat",
        false,
        Some("s3".to_string()),
    )
    .unwrap();
    match &store.kind {
        StoreKind::S3Compatible { bucket, .. } => assert_eq!(bucket, "era-bucket"),
        _ => panic!("expected an S3-compatible store"),
    }
}

#[test]
fn other_hints_fall_back_to_plain_http() {
    let store = new("http://host.example:1234/era", false, Some("webdav".to_string())).unwrap();
    assert!(matches!(store.kind, StoreKind::Http { .. }));
}

#[test]
fn unsupported_scheme_is_rejected() {
    assert!(matches!(
        new("ftp://archive.example/era", false, None),
        Err(ConfigError::UnsupportedScheme)
    ));
}

#[test]
fn unparseable_url_is_rejected() {
    assert!(matches!(new("http://[bad", false, None), Err(ConfigError::InvalidUrl)));
}

#[test]
fn join_path_prefixes_base_and_trims_slashes() {
    let store = Store {
        kind: StoreKind::S3 { bucket: "b".to_string() },
        base: "mainnet/flat".to_string(),
        decompress: false,
    };
    assert_eq!(store.join_path("0000000000.dbin"), "mainnet/flat/0000000000.dbin");
    assert_eq!(store.join_path("//0000000100.dbin"), "mainnet/flat/0000000100.dbin");
}

#[test]
fn read_options_decompress_defaults_on() {
    assert!(ReadOptions { decompress: None }.decompress());
    assert!(ReadOptions { decompress: Some(true) }.decompress());
    assert!(!ReadOptions { decompress: Some(false) }.decompress());
}

#[test]
fn http_parts_without_host_are_rejected() {
    let r = resolve_parts("http".to_string(), None, Some(80), "/era".to_string(), false, None);
    assert!(matches!(r, Err(ConfigError::MissingHost)));
}

#[test]
fn http_parts_without_port_are_rejected() {
    let r = resolve_parts(
        "https".to_string(),
        Some("host.example".to_string()),
        None,
        "/era".to_string(),
        false,
        None,
    );
    assert!(matches!(r, Err(ConfigError::InvalidUrl)));
}

#[test]
fn bucket_parts_without_host_are_rejected() {
    let s3 = resolve_parts("s3".to_string(), None, None, "/era".to_string(), false, None);
    assert!(matches!(s3, Err(ConfigError::MissingBucket)));
    let gs = resolve_parts("gs".to_string(), None, None, "".to_string(), true, None);
    assert!(matches!(gs, Err(ConfigError::MissingBucket)));
}

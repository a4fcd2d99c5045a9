use plaid_kit::api::error::ApiError;
use plaid_kit::api::models::{
    default_start_from_scratch, ApiConfig, IndexConfigRequest, IndexConfigStored,
};
use plaid_kit::api::registry::NameMap;
use plaid_kit::api::routes::{
    rate_limit_reply, route_group, route_limits, Endpoint, RouteGroup,
};
use plaid_kit::api::server::{on_word, parse_server_args, router_settings, CliError, CliOutcome};
use plaid_kit::api::state::{
    get_loading_lock, index_names, summarize_index, summary_from_metadata, DirEntryInfo,
    MetadataFields,
};
use std::sync::{Arc, Mutex};
use plaid_kit::num::{format_usize, parse_unsigned_str};

fn args(v: &[&str]) -> Vec<String> {
    v.iter().map(|s| s.to_string()).collect()
}

fn some(s: &str) -> Option<String> {
    Some(s.to_string())
}

#[test]
fn error_messages() {
    let e = ApiError::DimensionMismatch { expected: 128, actual: 64 };
    assert_eq!(e.to_display_string(), "Embedding dimension mismatch: expected 128, got 64");
    assert_eq!(
        ApiError::IndexNotFound("x".to_string()).to_display_string(),
        "Index not found: x"
    );
    assert_eq!(
        ApiError::IndexNotDeclared("x".to_string()).to_display_string(),
        "Index not declared: x. Call POST /indices first to declare the index."
    );
    assert_eq!(
        ApiError::NextPlaid("disk full".to_string()).to_display_string(),
        "Next-Plaid error: disk full"
    );
    assert_eq!(
        ApiError::MetadataNotFound("m".to_string()).to_display_string(),
        "Metadata database not found for index: m"
    );
}

#[test]
fn error_responses() {
    let (status, body) = ApiError::IndexNotDeclared("undeclared_index".to_string()).into_response_parts();
    assert_eq!(status, 404);
    assert_eq!(body.code, "INDEX_NOT_DECLARED");
    assert_eq!(
        body.message,
        "Index 'undeclared_index' not declared. Call POST /indices first to declare the index."
    );
    let (status, body) = ApiError::DimensionMismatch { expected: 32, actual: 64 }.into_response_parts();
    assert_eq!((status, body.code.as_str(), body.message.as_str()), (400, "DIMENSION_MISMATCH", "Expected dimension 32, got 64"));
    let cases = vec![
        (ApiError::IndexNotFound("a".to_string()), 404, "INDEX_NOT_FOUND"),
        (ApiError::IndexAlreadyExists("a".to_string()), 409, "INDEX_ALREADY_EXISTS"),
        (ApiError::BadRequest("a".to_string()), 400, "BAD_REQUEST"),
        (ApiError::MetadataNotFound("a".to_string()), 404, "METADATA_NOT_FOUND"),
        (ApiError::Internal("a".to_string()), 500, "INTERNAL_ERROR"),
        (ApiError::ServiceUnavailable("a".to_string()), 503, "SERVICE_UNAVAILABLE"),
        (ApiError::NextPlaid("a".to_string()), 500, "NEXT_PLAID_ERROR"),
    ];
    for (e, st, code) in cases {
        let (s, b) = e.into_response_parts();
        assert_eq!(s, st);
        assert_eq!(b.code, code);
        assert_eq!(b.message, "a");
    }
}

#[test]
fn model_defaults() {
    assert_eq!(default_start_from_scratch(), 999);
    let r = IndexConfigRequest::default();
    assert!(r.nbits.is_none() && r.batch_size.is_none() && r.seed.is_none());
    assert!(r.start_from_scratch.is_none() && r.max_documents.is_none());
    let c = ApiConfig::default();
    assert_eq!(c.index_dir, "./indices");
    assert_eq!(c.default_top_k, 10);
}

#[test]
fn server_args_defaults_and_values() {
    match parse_server_args(&args(&["next-plaid-api"])) {
        CliOutcome::Run(a) => {
            assert_eq!((a.host.as_str(), a.port, a.index_dir.as_str()), ("0.0.0.0", 8080, "./indices"));
        },
        other => panic!("unexpected {:?}", other),
    }
    match parse_server_args(&args(&["next-plaid-api", "-p", "3000", "-d", "/data/indices", "--host", "127.0.0.1"])) {
        CliOutcome::Run(a) => {
            assert_eq!((a.host.as_str(), a.port, a.index_dir.as_str()), ("127.0.0.1", 3000, "/data/indices"));
        },
        other => panic!("unexpected {:?}", other),
    }
    match parse_server_args(&args(&["x", "--port", "1", "--port", "+80"])) {
        CliOutcome::Run(a) => assert_eq!(a.port, 80),
        other => panic!("unexpected {:?}", other),
    }
    assert!(matches!(parse_server_args(&Vec::new()), CliOutcome::Run(_)));
}

#[test]
fn server_args_errors() {
    assert!(matches!(parse_server_args(&args(&["x", "--port", "70000"])), CliOutcome::Failed(CliError::InvalidPort)));
    assert!(matches!(parse_server_args(&args(&["x", "-p"])), CliOutcome::Failed(CliError::InvalidPort)));
    assert!(matches!(parse_server_args(&args(&["x", "-p", "-1"])), CliOutcome::Failed(CliError::InvalidPort)));
    assert!(matches!(parse_server_args(&args(&["x", "--host"])), CliOutcome::Failed(CliError::MissingHost)));
    assert!(matches!(parse_server_args(&args(&["x", "-d"])), CliOutcome::Failed(CliError::MissingIndexDir)));
    assert!(matches!(parse_server_args(&args(&["x", "--help", "--bogus"])), CliOutcome::Help));
    match parse_server_args(&args(&["x", "-p", "1", "--bogus", "--help"])) {
        CliOutcome::Failed(CliError::UnknownArgument(a)) => assert_eq!(a, "--bogus"),
        other => panic!("unexpected {:?}", other),
    }
}

#[test]
fn router_settings_defaults() {
    let r = router_settings(&None, &None, &None, &None);
    assert!(!r.rate_limit_enabled);
    assert_eq!((r.rate_limit_per_second, r.rate_limit_burst_size, r.concurrency_limit), (50, 100, 100));
}

#[test]
fn router_settings_from_values() {
    let r = router_settings(&some("TRUE"), &some("7"), &some("5000000000"), &some("+12"));
    assert!(r.rate_limit_enabled);
    assert_eq!((r.rate_limit_per_second, r.rate_limit_burst_size, r.concurrency_limit), (7, 100, 12));
    assert!(router_settings(&some("Yes"), &None, &None, &None).rate_limit_enabled);
    assert!(router_settings(&some("1"), &None, &None, &None).rate_limit_enabled);
    assert!(!router_settings(&some("on"), &None, &None, &None).rate_limit_enabled);
    assert_eq!(router_settings(&None, &some("abc"), &some("10"), &some("")).rate_limit_per_second, 50);
    assert_eq!(router_settings(&None, &None, &some("10"), &some("")).rate_limit_burst_size, 10);
    assert_eq!(router_settings(&None, &None, &None, &some("")).concurrency_limit, 100);
}

#[test]
fn decimal_text() {
    assert_eq!(format_usize(0), "0");
    assert_eq!(format_usize(1234567), "1234567");
    assert_eq!(parse_unsigned_str("007", 100), Some(7));
    assert_eq!(parse_unsigned_str("65535", 65535), Some(65535));
    assert_eq!(parse_unsigned_str("65536", 65535), None);
    assert_eq!(parse_unsigned_str("+", 10), None);
    assert_eq!(parse_unsigned_str("", 10), None);
    assert_eq!(parse_unsigned_str(" 1", 10), None);
    assert_eq!(parse_unsigned_str("18446744073709551615", u64::MAX), Some(u64::MAX));
    assert_eq!(parse_unsigned_str("18446744073709551616", u64::MAX), None);
}

#[test]
fn name_map_reads_back_writes() {
    let mut m: NameMap<u32> = NameMap::new();
    assert_eq!(m.len(), 0);
    m.insert("a", 1);
    m.insert("b", 2);
    assert_eq!(m.get("a"), Some(&1));
    assert_eq!(m.get("b"), Some(&2));
    assert_eq!(m.get("c"), None);
    m.insert("a", 3);
    assert_eq!(m.get("a"), Some(&3));
    assert_eq!(m.len(), 2);
    assert!(m.remove("a"));
    assert!(!m.remove("a"));
    assert!(!m.contains("a"));
    assert!(m.contains("b"));
    assert_eq!(m.len(), 1);
}

fn entry(name: Option<&str>, is_dir: bool, meta: bool, config: bool) -> DirEntryInfo {
    DirEntryInfo {
        name: name.map(|s| s.to_string()),
        is_dir,
        has_metadata_json: meta,
        has_config_json: config,
    }
}

#[test]
fn index_names_sorted_and_filtered() {
    let entries = vec![
        entry(Some("zeta"), true, true, false),
        entry(Some("alpha"), true, false, true),
        entry(Some("file.txt"), false, true, true),
        entry(Some("beta"), true, false, false),
        entry(None, true, true, true),
        entry(Some("Gamma"), true, true, true),
        entry(Some("al"), true, true, false),
    ];
    assert_eq!(index_names(&entries), vec!["Gamma", "al", "alpha", "zeta"]);
    assert!(index_names(&Vec::new()).is_empty());
}

fn stored(nbits: usize, max_documents: Option<usize>) -> IndexConfigStored {
    IndexConfigStored { nbits, batch_size: 50000, seed: Some(42), start_from_scratch: 999, max_documents }
}

#[test]
fn summary_without_metadata_file() {
    let s = summarize_index("idx", Some(stored(2, Some(500))), None, true);
    assert_eq!(s.name, "idx");
    assert_eq!((s.num_documents, s.num_embeddings, s.num_partitions, s.dimension, s.nbits), (0, 0, 0, 0, 2));
    assert!(!s.has_metadata);
    assert_eq!(s.max_documents, Some(500));
    let t = summarize_index("idx", None, None, false);
    assert_eq!(t.nbits, 4);
    assert_eq!(t.max_documents, None);
}

#[test]
fn summary_from_metadata_file() {
    let m = MetadataFields {
        num_documents: Some(10),
        num_embeddings: Some(150),
        num_partitions: None,
        embedding_dim: Some(48),
        nbits: None,
    };
    let s = summarize_index("info_test", Some(stored(2, None)), Some(m), true);
    assert_eq!((s.num_documents, s.num_embeddings, s.num_partitions, s.dimension, s.nbits), (10, 150, 0, 48, 4));
    assert!(s.has_metadata);
    assert_eq!(s.max_documents, None);
}

#[test]
fn loading_lock_is_shared_per_name() {
    let mut locks: NameMap<Arc<Mutex<()>>> = NameMap::new();
    let a1 = get_loading_lock(&mut locks, "alpha");
    let a2 = get_loading_lock(&mut locks, "alpha");
    let b = get_loading_lock(&mut locks, "beta");
    assert!(Arc::ptr_eq(&a1, &a2));
    assert!(!Arc::ptr_eq(&a1, &b));
    assert_eq!(locks.len(), 2);
    let _guard = a1.lock().unwrap();
    assert!(a2.try_lock().is_err());
    assert!(b.try_lock().is_ok());
}

#[test]
fn switch_words() {
    assert!(on_word("true"));
    assert!(on_word("1"));
    assert!(on_word("yes"));
    assert!(!on_word("TRUE"));
    assert!(!on_word("on"));
    assert!(!on_word(""));
}

#[test]
fn summary_from_metadata_bytes() {
    let json = br#"{"num_documents": 10, "num_embeddings": 150, "embedding_dim": 48, "nbits": 2, "avg_doclen": 15.0}"#;
    let s = summary_from_metadata("idx", Some(stored(4, Some(9))), Some(json.to_vec()), false).unwrap();
    assert_eq!(s.name, "idx");
    assert_eq!((s.num_documents, s.num_embeddings, s.num_partitions, s.dimension, s.nbits), (10, 150, 0, 48, 2));
    assert!(!s.has_metadata);
    assert_eq!(s.max_documents, Some(9));
    let n = summary_from_metadata("idx", Some(stored(3, None)), None, true).unwrap();
    assert_eq!((n.num_documents, n.nbits, n.has_metadata), (0, 3, false));
    let negative = br#"{"num_documents": -1, "nbits": "8"}"#;
    let t = summary_from_metadata("idx", None, Some(negative.to_vec()), true).unwrap();
    assert_eq!((t.num_documents, t.nbits, t.has_metadata), (0, 4, true));
    match summary_from_metadata("idx", None, Some(b"{not json".to_vec()), true) {
        Err(ApiError::Internal(m)) => assert!(m.starts_with("Failed to parse metadata: ")),
        other => panic!("unexpected {:?}", other.map(|s| s.name)),
    }
}

#[test]
fn routes_and_their_limits() {
    assert_eq!(route_group(Endpoint::ListIndices), RouteGroup::IndexInfo);
    assert_eq!(route_group(Endpoint::GetIndexInfo), RouteGroup::IndexInfo);
    assert_eq!(route_group(Endpoint::DeleteDocuments), RouteGroup::Delete);
    assert_eq!(route_group(Endpoint::CreateIndex), RouteGroup::Api);
    let on = router_settings(&some("true"), &None, &None, &None);
    let off = router_settings(&None, &None, &None, &None);
    assert_eq!(route_group(Endpoint::Search), RouteGroup::Api);
    assert!(route_limits(RouteGroup::Api, &on).rate_limited);
    assert!(!route_limits(RouteGroup::Api, &off).rate_limited);
    for g in [RouteGroup::Health, RouteGroup::IndexInfo, RouteGroup::Update, RouteGroup::Delete] {
        assert!(!route_limits(g, &on).rate_limited);
    }
    let u = route_limits(route_group(Endpoint::UpdateIndex), &on);
    assert_eq!((u.timeout_secs, u.concurrency_limited, u.body_limit_bytes), (300, true, Some(1 << 30)));
    let h = route_limits(route_group(Endpoint::Health), &on);
    assert_eq!((h.timeout_secs, h.concurrency_limited, h.cors), (30, false, false));
}

#[test]
fn rate_limited_answer() {
    let r = rate_limit_reply();
    assert_eq!((r.status, r.retry_after_seconds), (429, 2));
    assert_eq!(r.code, "RATE_LIMITED");
    assert_eq!(r.message, "Too many requests. Please retry after the specified time.");
    assert_eq!(r.content_type, "application/json");
}

use edgefirst_client::client::{classify_rpc_reply, reply_part, reply_snapshot_id, MultipartField};
use edgefirst_client::client::snapshot_name;
use edgefirst_client::client::snapshot_part_key;
use edgefirst_client::client::{
    build_filename, client_url, default_task_count, download_file_location, is_loopback_host,
    map_rpc_error, parse_frame_from_image_name, sanitize_path_component, server_address,
    server_name, validate_chart_args, Progress, UrlHost,
};
use edgefirst_client::error::Error;
use edgefirst_client::ids::TaskID;
use edgefirst_client::search::filter_and_sort_by_name;

/// The names in the order the search ranks them.
fn sort_names(items: Vec<String>, filter: &str) -> Vec<String> {
    filter_and_sort_by_name(&items, filter)
        .into_iter()
        .map(|i| items[i].clone())
        .collect()
}

#[test]
fn test_filter_and_sort_by_name_exact_match_first() {
    // Test that exact matches come first
    let items = vec![
        "Deer Roundtrip 123".to_string(),
        "Deer".to_string(),
        "Reindeer".to_string(),
        "DEER".to_string(),
    ];
    let result = sort_names(items, "Deer");
    assert_eq!(result[0], "Deer"); // Exact match first
    assert_eq!(result[1], "DEER"); // Case-insensitive exact match second
}

#[test]
fn test_filter_and_sort_by_name_shorter_names_preferred() {
    // Test that shorter names (more specific) come before longer ones
    let items = vec![
        "Test Dataset ABC".to_string(),
        "Test".to_string(),
        "Test Dataset".to_string(),
    ];
    let result = sort_names(items, "Test");
    assert_eq!(result[0], "Test"); // Exact match first
    assert_eq!(result[1], "Test Dataset"); // Shorter substring match
    assert_eq!(result[2], "Test Dataset ABC"); // Longer substring match
}

#[test]
fn test_filter_and_sort_by_name_case_insensitive_filter() {
    // Test that filtering is case-insensitive
    let items = vec![
        "UPPERCASE".to_string(),
        "lowercase".to_string(),
        "MixedCase".to_string(),
    ];
    let result = sort_names(items, "case");
    assert_eq!(result.len(), 3); // All items should match
}

#[test]
fn test_filter_and_sort_by_name_no_matches() {
    // Test that empty result is returned when no matches
    let items = vec!["Apple".to_string(), "Banana".to_string()];
    let result = sort_names(items, "Cherry");
    assert!(result.is_empty());
}

#[test]
fn test_filter_and_sort_by_name_alphabetical_tiebreaker() {
    // Test alphabetical ordering for same-length names
    let items = vec![
        "TestC".to_string(),
        "TestA".to_string(),
        "TestB".to_string(),
    ];
    let result = sort_names(items, "Test");
    assert_eq!(result, vec!["TestA", "TestB", "TestC"]);
}

#[test]
fn test_build_filename_no_flatten() {
    // When flatten=false, should return base_name unchanged
    let result = build_filename("image.jpg", false, Some(&"seq".to_string()), Some(42));
    assert_eq!(result, "image.jpg");

    let result = build_filename("test.png", false, None, None);
    assert_eq!(result, "test.png");
}

#[test]
fn test_build_filename_flatten_no_sequence() {
    // When flatten=true but no sequence, should return base_name unchanged
    let result = build_filename("standalone.jpg", true, None, None);
    assert_eq!(result, "standalone.jpg");
}

#[test]
fn test_build_filename_flatten_with_sequence_not_prefixed() {
    // When flatten=true, in sequence, filename not prefixed → add prefix
    let result = build_filename(
        "image.camera.jpeg",
        true,
        Some(&"deer_sequence".to_string()),
        Some(42),
    );
    assert_eq!(result, "deer_sequence_42_image.camera.jpeg");
}

#[test]
fn test_build_filename_flatten_with_sequence_no_frame() {
    // When flatten=true, in sequence, no frame number → prefix with sequence only
    let result =
        build_filename("image.jpg", true, Some(&"sequence_A".to_string()), None);
    assert_eq!(result, "sequence_A_image.jpg");
}

#[test]
fn test_build_filename_flatten_already_prefixed() {
    // When flatten=true, filename already starts with sequence_ → return unchanged
    let result = build_filename(
        "deer_sequence_042.camera.jpeg",
        true,
        Some(&"deer_sequence".to_string()),
        Some(42),
    );
    assert_eq!(result, "deer_sequence_042.camera.jpeg");
}

#[test]
fn test_build_filename_flatten_already_prefixed_different_frame() {
    // Edge case: filename has sequence prefix but we're adding different frame
    // Should still respect existing prefix
    let result = build_filename(
        "sequence_A_001.jpg",
        true,
        Some(&"sequence_A".to_string()),
        Some(2),
    );
    assert_eq!(result, "sequence_A_001.jpg");
}

#[test]
fn test_build_filename_flatten_partial_match() {
    // Edge case: filename contains sequence name but not as prefix
    let result = build_filename(
        "test_sequence_A_image.jpg",
        true,
        Some(&"sequence_A".to_string()),
        Some(5),
    );
    // Should add prefix because it doesn't START with "sequence_A_"
    assert_eq!(result, "sequence_A_5_test_sequence_A_image.jpg");
}

#[test]
fn test_build_filename_flatten_preserves_extension() {
    // Verify that file extensions are preserved correctly
    let extensions = vec![
        "jpeg",
        "jpg",
        "png",
        "camera.jpeg",
        "lidar.pcd",
        "depth.png",
    ];

    for ext in extensions {
        let filename = format!("image.{}", ext);
        let result = build_filename(&filename, true, Some(&"seq".to_string()), Some(1));
        assert!(
            result.ends_with(&format!(".{}", ext)),
            "Extension .{} not preserved in {}",
            ext,
            result
        );
    }
}

#[test]
fn test_build_filename_flatten_sanitization_compatibility() {
    // Test with sanitized path components (no special chars)
    let result = build_filename(
        "sample_001.jpg",
        true,
        Some(&"seq_name_with_underscores".to_string()),
        Some(10),
    );
    assert_eq!(result, "seq_name_with_underscores_10_sample_001.jpg");
}

#[test]
fn test_filter_and_sort_by_name_exact_match_is_deterministic() {
    // Test that searching for "Deer" always returns "Deer" first, not
    // "Deer Roundtrip 20251129" or similar
    let items = vec![
        "Deer Roundtrip 20251129".to_string(),
        "White-Tailed Deer".to_string(),
        "Deer".to_string(),
        "Deer Snapshot Test".to_string(),
        "Reindeer Dataset".to_string(),
    ];

    let result = sort_names(items, "Deer");

    // CRITICAL: First result must be exact match "Deer"
    assert_eq!(
        result.first().map(|s| s.as_str()),
        Some("Deer"),
        "Expected exact match 'Deer' first, got: {:?}",
        result.first()
    );

    // Verify all items containing "Deer" are present (case-insensitive)
    assert_eq!(result.len(), 5);
}

#[test]
fn test_filter_and_sort_by_name_exact_match_with_different_cases() {
    // Verify case-sensitive exact match takes priority over case-insensitive
    let items = vec![
        "DEER".to_string(),
        "deer".to_string(),
        "Deer".to_string(),
        "Deer Test".to_string(),
    ];

    let result = sort_names(items, "Deer");

    // Priority 1: Case-sensitive exact match "Deer" first
    assert_eq!(result[0], "Deer");
    // Priority 2: Case-insensitive exact matches next
    assert!(result[1] == "DEER" || result[1] == "deer");
    assert!(result[2] == "DEER" || result[2] == "deer");
}

#[test]
fn test_filter_and_sort_by_name_snapshot_realistic_scenario() {
    // Realistic scenario: User searches for snapshot "Deer" and multiple
    // snapshots exist with similar names
    let items = vec![
        "Unit Testing - Deer Dataset Backup".to_string(),
        "Deer".to_string(),
        "Deer Snapshot 2025-01-15".to_string(),
        "Original Deer".to_string(),
    ];

    let result = sort_names(items, "Deer");

    // MUST return exact match first for deterministic test behavior
    assert_eq!(
        result[0], "Deer",
        "Searching for 'Deer' should return exact 'Deer' first"
    );
}

#[test]
fn test_filter_and_sort_by_name_dataset_realistic_scenario() {
    // Realistic scenario: User searches for dataset "Deer" but multiple
    // datasets have "Deer" in their name
    let items = vec![
        "Deer Roundtrip".to_string(),
        "Deer".to_string(),
        "deer".to_string(),
        "White-Tailed Deer".to_string(),
        "Deer-V2".to_string(),
    ];

    let result = sort_names(items, "Deer");

    // Exact case-sensitive match must be first
    assert_eq!(result[0], "Deer");
    // Case-insensitive exact match should be second
    assert_eq!(result[1], "deer");
    // Shorter names should come before longer names
    assert!(
        result.iter().position(|s| s == "Deer-V2").unwrap()
            < result.iter().position(|s| s == "Deer Roundtrip").unwrap()
    );
}

#[test]
fn test_filter_and_sort_by_name_first_result_is_always_best_match() {
    // CRITICAL: The first result should ALWAYS be the best match
    // This is essential for deterministic test behavior
    let scenarios = vec![
        // (items, filter, expected_first)
        (vec!["Deer Dataset", "Deer", "deer"], "Deer", "Deer"),
        (vec!["test", "TEST", "Test Data"], "test", "test"),
        (vec!["ABC", "ABCD", "abc"], "ABC", "ABC"),
    ];

    for (items, filter, expected_first) in scenarios {
        let items: Vec<String> = items.iter().map(|s| s.to_string()).collect();
        let result = sort_names(items, filter);

        assert_eq!(
            result.first().map(|s| s.as_str()),
            Some(expected_first),
            "For filter '{}', expected first result '{}', got: {:?}",
            filter,
            expected_first,
            result.first()
        );
    }
}

#[test]
fn maps_not_found_with_task_id_to_typed_variant() {
    // Server code 101 + "not found" message + task_id present → TaskNotFound
    let task_id = TaskID::try_from("task-1a2b").unwrap();
    let err = map_rpc_error(
        "task.data.list",
        101,
        "task not found".to_string(),
        Some(task_id),
    );
    assert!(matches!(err, Error::TaskNotFound(_)));
}

#[test]
fn maps_cannot_find_phrasing_to_typed_variant() {
    // The DVE server emits "Cannot find task..."; a plain "not found"
    // substring match would miss it and leave a generic RpcError.
    let task_id = TaskID::try_from("task-1a2b").unwrap();
    let err = map_rpc_error(
        "task.data.list",
        101,
        "Cannot find task with id 6789".to_string(),
        Some(task_id),
    );
    assert!(
        matches!(err, Error::TaskNotFound(_)),
        "'Cannot find task' should map to TaskNotFound, got {err:?}"
    );
}

#[test]
fn maps_does_not_exist_phrasing_to_typed_variant() {
    let task_id = TaskID::try_from("task-1a2b").unwrap();
    let err = map_rpc_error(
        "task.chart.get",
        101,
        "task does not exist".to_string(),
        Some(task_id),
    );
    assert!(matches!(err, Error::TaskNotFound(_)));
}

#[test]
fn maps_code_101_with_unknown_phrasing_when_task_id_supplied() {
    // Server contract for code 101 is "resource not found"; even if the
    // phrasing is novel, the typed variant should be returned so callers
    // can write a stable `match`.
    let task_id = TaskID::try_from("task-1a2b").unwrap();
    let err = map_rpc_error(
        "task.data.list",
        101,
        "completely novel server message".to_string(),
        Some(task_id),
    );
    assert!(
        matches!(err, Error::TaskNotFound(_)),
        "code 101 + task_id should always map to TaskNotFound, got {err:?}"
    );
}

#[test]
fn maps_permission_codes_to_typed_variant() {
    for code in [401, 403] {
        let err = map_rpc_error("task.chart.add", code, "denied".to_string(), None);
        assert!(
            matches!(err, Error::PermissionDenied(_)),
            "code {} did not map",
            code
        );
    }
}

#[test]
fn permission_denied_records_method_for_diagnostics() {
    let err = map_rpc_error("task.data.upload", 403, "forbidden".to_string(), None);
    match err {
        Error::PermissionDenied(method) => assert_eq!(method, "task.data.upload"),
        other => panic!("expected PermissionDenied, got {:?}", other),
    }
}

#[test]
fn maps_payload_too_large_to_typed_variant() {
    let err = map_rpc_error("val.data.upload", 413, "request too large".into(), None);
    match err {
        Error::PayloadTooLarge { method, size_hint } => {
            assert_eq!(method, "val.data.upload");
            assert!(size_hint.is_none());
        }
        other => panic!("expected PayloadTooLarge, got {:?}", other),
    }
}

#[test]
fn falls_through_to_generic_rpc_error_for_unknown_codes() {
    let err = map_rpc_error("task.data.list", -99999, "weird".to_string(), None);
    match err {
        Error::RpcError(code, msg) => {
            assert_eq!(code, -99999);
            assert_eq!(msg, "weird");
        }
        other => panic!("expected RpcError, got {:?}", other),
    }
}

#[test]
fn not_found_without_task_id_falls_through() {
    // Code 101 without task_id → generic RpcError (no task to name)
    let err = map_rpc_error("task.data.list", 101, "not found".to_string(), None);
    assert!(matches!(err, Error::RpcError(101, _)));
}

#[test]
fn code_101_with_task_id_always_maps_even_with_unrelated_message() {
    // Previously the test asserted fall-through for non-"not found"
    // messages, but the contract for code 101 is "resource not found"
    // (see api.go), so when a task_id is present the typed variant is
    // returned unconditionally to give callers a stable error type.
    let task_id = TaskID::try_from("task-1a2b").unwrap();
    let err = map_rpc_error(
        "task.data.list",
        101,
        "permission denied".to_string(),
        Some(task_id),
    );
    assert!(matches!(err, Error::TaskNotFound(_)));
}

#[test]
fn rejects_empty_group() {
    let err = validate_chart_args("", "name").unwrap_err();
    assert!(matches!(err, Error::InvalidParameters(_)));
}

#[test]
fn rejects_empty_name() {
    let err = validate_chart_args("group", "").unwrap_err();
    assert!(matches!(err, Error::InvalidParameters(_)));
}

#[test]
fn rejects_both_empty() {
    let err = validate_chart_args("", "").unwrap_err();
    assert!(matches!(err, Error::InvalidParameters(_)));
}

#[test]
fn accepts_valid_args() {
    assert!(validate_chart_args("group", "name").is_ok());
}

#[test]
fn accepts_unicode_args() {
    // Unicode names are allowed; only emptiness is rejected.
    assert!(validate_chart_args("metrics-集合", "损失").is_ok());
}

#[test]
fn test_with_server_rejects_insecure_full_url() {
    let err = server_address("http://studio.example.com").unwrap_err();
    assert!(matches!(err, Error::InsecureUrl(_)));
}

#[test]
fn with_url_accepts_https_public_host() {
    let out = client_url("https://studio.example.com").expect("https public host must be accepted");
    assert_eq!(out, "https://studio.example.com");
}

#[test]
fn with_url_accepts_http_loopback_ipv4() {
    let out = client_url("http://127.0.0.1:8080").expect("http://127.0.0.1 must be accepted (loopback)");
    assert_eq!(out, "http://127.0.0.1:8080");
}

#[test]
fn with_url_accepts_http_loopback_ipv6() {
    let out = client_url("http://[::1]:8080").expect("http://[::1] must be accepted (loopback)");
    assert!(out.starts_with("http://[::1]"));
}

#[test]
fn with_url_accepts_http_localhost() {
    client_url("http://localhost:8080").expect("http://localhost must be accepted");
    client_url("http://LOCALHOST").expect("http://LOCALHOST must be accepted (case-insensitive)");
    client_url("http://wiremock.localhost").expect("http://*.localhost must be accepted");
}

#[test]
fn with_url_rejects_http_public_host() {
    let err = client_url("http://studio.example.com").unwrap_err();
    match err {
        Error::InsecureUrl(u) => assert_eq!(u, "http://studio.example.com"),
        other => panic!("expected InsecureUrl, got {other:?}"),
    }
}

#[test]
fn with_url_rejects_http_public_ip() {
    let err = client_url("http://8.8.8.8").unwrap_err();
    assert!(matches!(err, Error::InsecureUrl(_)));
}

#[test]
fn with_url_rejects_non_http_scheme() {
    let err = client_url("file:///etc/passwd").unwrap_err();
    assert!(matches!(err, Error::InsecureUrl(_)));
}

#[test]
fn client_url_trims_trailing_slashes() {
    assert_eq!(client_url("https://studio.example.com//").unwrap(), "https://studio.example.com");
}

#[test]
fn client_url_reports_unparsable_text() {
    assert!(matches!(client_url("not a url"), Err(Error::UrlParseError(_))));
}

#[test]
fn server_address_maps_names() {
    assert_eq!(server_address("test").unwrap(), "https://test.edgefirst.studio");
    assert_eq!(server_address("saas").unwrap(), "https://edgefirst.studio");
    assert_eq!(server_address("").unwrap(), "https://edgefirst.studio");
    assert_eq!(server_address("https://studio.example.com/").unwrap(), "https://studio.example.com");
}

#[test]
fn server_name_round_trips_through_address() {
    for name in ["test", "stage", "a.b"] {
        let url = server_address(name).unwrap();
        assert_eq!(server_name(&url), name);
    }
    assert_eq!(server_name(&server_address("").unwrap()), "saas");
    assert_eq!(server_name("https://studio.example.com"), "saas");
    assert_eq!(server_name("http://test.edgefirst.studio"), "saas");
}

#[test]
fn loopback_hosts() {
    assert!(is_loopback_host(Some(&UrlHost::Ipv4([127, 1, 2, 3]))));
    assert!(!is_loopback_host(Some(&UrlHost::Ipv4([128, 0, 0, 1]))));
    assert!(is_loopback_host(Some(&UrlHost::Ipv6([0, 0, 0, 0, 0, 0, 0, 1]))));
    assert!(!is_loopback_host(Some(&UrlHost::Ipv6([0, 0, 0, 0, 0, 0, 0, 2]))));
    assert!(is_loopback_host(Some(&UrlHost::Domain("Api.LocalHost".to_string()))));
    assert!(!is_loopback_host(Some(&UrlHost::Domain("localhost.example.com".to_string()))));
    assert!(!is_loopback_host(None));
}

#[test]
fn chart_args_error_message() {
    match validate_chart_args("", "x") {
        Err(Error::InvalidParameters(m)) => assert_eq!(m, "chart: group and name must be non-empty"),
        other => panic!("unexpected {other:?}"),
    }
}

#[test]
fn search_keeps_equal_names_in_order() {
    let items = vec!["ab".to_string(), "b".to_string(), "ab".to_string(), "c".to_string()];
    assert_eq!(filter_and_sort_by_name(&items, "b"), vec![1, 0, 2]);
}

#[test]
fn progress_can_be_constructed_with_zero_total() {
    let p = Progress {
        current: 0,
        total: 0,
        status: None,
    };
    assert_eq!(p.current, 0);
    assert_eq!(p.total, 0);
    assert!(p.status.is_none());
}

#[test]
fn progress_tracks_current_independently_of_total() {
    let p = Progress {
        current: 123,
        total: 456,
        status: Some("Downloading".into()),
    };
    assert_eq!(p.current, 123);
    assert_eq!(p.total, 456);
    assert_eq!(p.status.as_deref(), Some("Downloading"));
}

#[test]
fn progress_can_be_cloned() {
    let p = Progress {
        current: 10,
        total: 20,
        status: Some("phase".into()),
    };
    let q = p.clone();
    assert_eq!(q.current, p.current);
    assert_eq!(q.total, p.total);
    assert_eq!(q.status, p.status);
}

#[test]
fn sanitize_path_components() {
    assert_eq!(sanitize_path_component("  seq A  "), "seq A");
    assert_eq!(sanitize_path_component("a/b"), "b");
    assert_eq!(sanitize_path_component("x:y*z?"), "x_y_z_");
    assert_eq!(sanitize_path_component("   "), "unnamed");
    assert_eq!(sanitize_path_component(".."), "..");
    assert_eq!(sanitize_path_component(" . "), ".");
    assert_eq!(sanitize_path_component("a/.."), "a_..");
    assert_eq!(sanitize_path_component("..."), "...");
    assert_eq!(sanitize_path_component("/"), "_");
}

#[test]
fn sanitized_components_hold_no_separator() {
    for name in ["a\\b", "c:\\dir\\x|y", "<>\"?", "", "dir/", "   /  "] {
        let out = sanitize_path_component(name);
        assert!(!out.is_empty());
        assert!(!out.contains(['/', '\\', ':', '*', '?', '"', '<', '>', '|']));
    }
    assert_eq!(sanitize_path_component("a\\b"), "a_b");
}

#[test]
fn download_locations() {
    let (dir, file) =
        download_file_location(Some("s1"), Some("img.jpg"), Some("seq"), Some(3), false, true, "jpg");
    assert_eq!(dir, Some("seq".to_string()));
    assert_eq!(file, "img.jpg");
    let (dir, file) =
        download_file_location(Some("s1"), Some("img.jpg"), Some("seq"), Some(3), true, true, "jpg");
    assert_eq!(dir, None);
    assert_eq!(file, "seq_3_img.jpg");
    let (dir, file) = download_file_location(None, None, None, None, true, false, "pcd");
    assert_eq!(dir, None);
    assert_eq!(file, "unknown.pcd");
    let (_, file) = download_file_location(Some("a/b"), None, Some("q"), None, true, false, "json");
    assert_eq!(file, "q_b.json");
}

#[test]
fn frame_numbers_from_image_names() {
    let seq = "deer".to_string();
    let name = |s: &str| s.to_string();
    assert_eq!(parse_frame_from_image_name(Some(&name("deer_042.camera.jpeg")), Some(&seq)), None);
    assert_eq!(parse_frame_from_image_name(Some(&name("deer_042.jpg")), Some(&seq)), Some(42));
    assert_eq!(parse_frame_from_image_name(Some(&name("dir/deer_7.png")), Some(&seq)), Some(7));
    assert_eq!(parse_frame_from_image_name(Some(&name("deer_+7.png")), Some(&seq)), Some(7));
    assert_eq!(parse_frame_from_image_name(Some(&name("deer_4294967296.png")), Some(&seq)), None);
    assert_eq!(parse_frame_from_image_name(Some(&name("deer_4294967295.png")), Some(&seq)), Some(u32::MAX));
    assert_eq!(parse_frame_from_image_name(Some(&name("elk_1.png")), Some(&seq)), None);
    assert_eq!(parse_frame_from_image_name(Some(&name("deer_.png")), Some(&seq)), None);
    assert_eq!(parse_frame_from_image_name(None, Some(&seq)), None);
    assert_eq!(parse_frame_from_image_name(Some(&name("deer_1.png")), None), None);
}

#[test]
fn default_task_counts() {
    assert_eq!(default_task_count(1), 2);
    assert_eq!(default_task_count(4), 2);
    assert_eq!(default_task_count(12), 6);
    assert_eq!(default_task_count(64), 8);
}

#[test]
fn snapshot_part_keys() {
    assert_eq!(snapshot_part_key("s3::/bucket/snap-12", "data.zip"), "bucket/snap-12/data.zip");
    assert_eq!(snapshot_part_key("a::/b::/c", "d/e.bin"), "c/d/e.bin");
    assert_eq!(snapshot_part_key("plain/path", "f"), "plain/path/f");
    assert_eq!(snapshot_part_key("x::/", "f"), "/f");
    assert_eq!(snapshot_part_key("", "f"), "/f");
}

#[test]
fn download_folders_hold_no_separator() {
    for (seq, want) in [("..", ".."), (".", "."), ("../..", ".._.."), ("a/..", "a_.."), ("  x/y  ", "y")] {
        let (dir, _) =
            download_file_location(Some("s1"), Some("img.jpg"), Some(seq), Some(3), false, true, "jpg");
        let dir = dir.unwrap();
        assert_eq!(dir, want);
        assert!(!dir.contains('/'));
    }
}

#[test]
fn snapshot_names() {
    assert_eq!(snapshot_name(Some("My Dataset"), "dir/data.arrow"), "My Dataset");
    assert_eq!(snapshot_name(None, "dir/data.arrow"), "data");
    assert_eq!(snapshot_name(None, "/"), "edgefirst_dataset");
}

#[test]
fn rpc_replies_are_classified() {
    assert_eq!(classify_rpc_reply::<u32>(None, Some(7)).unwrap(), 7);
    match classify_rpc_reply::<u32>(Some((42, "bad".to_string())), Some(7)) {
        Err(Error::RpcError(42, m)) => assert_eq!(m, "bad"),
        other => panic!("unexpected {other:?}"),
    }
    assert!(matches!(classify_rpc_reply::<u32>(None, None), Err(Error::InvalidResponse)));
}

#[test]
fn multipart_reply_lookups() {
    let fields: Vec<(String, MultipartField<&str>)> = vec![
        ("snapshot_id".to_string(), MultipartField::Id(12)),
        ("prefix/data.zip".to_string(), MultipartField::Part("upload")),
    ];
    assert_eq!(reply_snapshot_id(&fields).unwrap(), 12);
    assert_eq!(reply_part(&fields, "prefix/data.zip").unwrap(), 1);
    assert!(matches!(reply_part(&fields, "snapshot_id"), Err(Error::InvalidResponse)));
    assert!(matches!(reply_part(&fields, "other"), Err(Error::InvalidResponse)));
    let no_id: Vec<(String, MultipartField<&str>)> = vec![];
    assert!(matches!(reply_snapshot_id(&no_id), Err(Error::InvalidResponse)));
}

use photo_sort::gallery::{build_index, PhotoIndex};
use photo_sort::metadata::Metadata;
use photo_sort::serve::{
    json_error, json_moved, json_ok, mime_type, parse_query, route, safe_path, urldecode,
    valid_angle, Route, ServerState,
};

// --- parse_query ---

#[test]
fn parse_query_extracts_params() {
    let params = parse_query("/api/photo?path=2020/a.jpg&foo=bar");
    assert_eq!(params.get("path").unwrap(), "2020/a.jpg");
    assert_eq!(params.get("foo").unwrap(), "bar");
}

#[test]
fn parse_query_empty_when_no_query() {
    let params = parse_query("/api/photo");
    assert!(params.is_empty());
}

#[test]
fn parse_query_decodes_percent() {
    let params = parse_query("/api?name=hello%20world");
    assert_eq!(params.get("name").unwrap(), "hello world");
}

#[test]
fn parse_query_last_pair_wins() {
    let params = parse_query("/api?k=a&k=b");
    assert_eq!(params.get("k").unwrap(), "b");
}

#[test]
fn parse_query_skips_pairs_without_equals() {
    let params = parse_query("/api?flag&k=v");
    assert_eq!(params.len(), 1);
    assert_eq!(params.get("k").unwrap(), "v");
}

// --- urldecode ---

#[test]
fn urldecode_decodes_percent_and_plus() {
    assert_eq!(urldecode("hello+world"), "hello world");
    assert_eq!(urldecode("hello%20world"), "hello world");
    assert_eq!(urldecode("a%2Fb"), "a/b");
}

#[test]
fn urldecode_passes_malformed_percent_through() {
    assert_eq!(urldecode("100%"), "100%");
    assert_eq!(urldecode("a%zzb"), "a%zzb");
}

#[test]
fn urldecode_multibyte_sequences() {
    assert_eq!(urldecode("caf%C3%A9"), "caf\u{e9}");
}

#[test]
fn urldecode_invalid_bytes_are_replaced() {
    assert_eq!(urldecode("%FF"), "\u{fffd}");
}

// --- safe_path ---

#[test]
fn safe_path_allows_relative() {
    assert!(safe_path("/photos", "2020/a.jpg").is_some());
}

#[test]
fn safe_path_rejects_traversal() {
    assert!(safe_path("/photos", "../etc/passwd").is_none());
    assert!(safe_path("/photos", "2020/../../etc/passwd").is_none());
}

#[test]
fn safe_path_rejects_absolute() {
    assert!(safe_path("/photos", "/etc/passwd").is_none());
}

#[test]
fn safe_path_result_stays_under_base() {
    let p = safe_path("/photos", "2020/a.jpg").unwrap();
    assert!(p.starts_with("/photos"));
    assert_eq!(p, "/photos/2020/a.jpg");
}

#[test]
fn safe_path_normalizes_backslashes() {
    let p = safe_path("/photos", "2020\\a.jpg").unwrap();
    assert_eq!(p, "/photos/2020/a.jpg");
}

// --- mime_type ---

#[test]
fn mime_type_for_common_formats() {
    assert_eq!(mime_type("photo.jpg"), "image/jpeg");
    assert_eq!(mime_type("photo.png"), "image/png");
    assert_eq!(mime_type("page.html"), "text/html; charset=utf-8");
    assert_eq!(mime_type("data.json"), "application/json");
    assert_eq!(mime_type("raw.cr2"), "application/octet-stream");
}

#[test]
fn mime_type_defaults_to_octet_stream() {
    assert_eq!(mime_type("noext"), "application/octet-stream");
    assert_eq!(mime_type("weird.xyz"), "application/octet-stream");
}

// --- responses ---

#[test]
fn json_bodies_escape_quotes() {
    assert_eq!(json_ok("saved"), "{\"ok\":\"saved\"}");
    assert_eq!(json_error("bad \"path\""), "{\"error\":\"bad \\\"path\\\"\"}");
    assert_eq!(
        json_moved("2021/a.jpg"),
        "{\"ok\":\"Fichier d\u{e9}plac\u{e9}\",\"new_path\":\"2021/a.jpg\"}"
    );
}

// --- routing ---

#[test]
fn route_dispatches_endpoints() {
    assert!(matches!(route("GET", "/"), Route::Root));
    assert!(matches!(route("POST", "/api/metadata"), Route::ApiMetadata));
    assert!(matches!(route("DELETE", "/api/photo"), Route::ApiDeletePhoto));
    assert!(matches!(route("POST", "/api/move"), Route::ApiMove));
    assert!(matches!(route("POST", "/api/rotate"), Route::ApiRotate));
    assert!(matches!(route("PUT", "/"), Route::MethodNotAllowed));
    assert!(matches!(route("POST", "/other"), Route::MethodNotAllowed));
}

#[test]
fn route_strips_prefixes() {
    match route("GET", "/thumb/2020/a.jpg") {
        Route::Thumb(rel) => assert_eq!(rel, "2020/a.jpg"),
        _ => panic!("expected a thumbnail route"),
    }
    match route("GET", "/2020/a.jpg") {
        Route::Static(rel) => assert_eq!(rel, "2020/a.jpg"),
        _ => panic!("expected a static route"),
    }
}

#[test]
fn rotate_accepts_quarter_turns_only() {
    assert!(valid_angle(90));
    assert!(valid_angle(180));
    assert!(valid_angle(270));
    assert!(!valid_angle(0));
    assert!(!valid_angle(45));
    assert!(!valid_angle(360));
}

// --- server state coherence ---

fn state_with_three_photos() -> ServerState {
    let rels = vec![
        "2020/a.jpg".to_string(),
        "2020/b.jpg".to_string(),
        "2021/c.jpg".to_string(),
    ];
    let index: PhotoIndex = build_index(&rels);
    let mut meta = Metadata::new();
    meta.add_tag("2020/a.jpg", "vacances");
    ServerState::new("/base".to_string(), meta, index)
}

#[test]
fn html_cache_serves_current_state() {
    let mut state = state_with_three_photos();
    let html = state.get_cached_html();
    assert!(html.contains("2020/a.jpg"));
    assert!(html.contains("2021/c.jpg"));
    assert!(html.contains("vacances"));
}

#[test]
fn cache_invalidated_after_delete() {
    let mut state = state_with_three_photos();
    let before = state.get_cached_html();
    assert!(before.contains("2020/a.jpg"));

    state.apply_delete("2020/a.jpg");
    let after = state.get_cached_html();
    assert!(!after.contains("2020/a.jpg"));
    assert!(after.contains("2020/b.jpg"));
    assert!(state.get_tags("2020/a.jpg").is_empty());
    assert!(state.year_files("2020").iter().all(|f| f != "2020/a.jpg"));
}

#[test]
fn cache_invalidated_after_move() {
    let mut state = state_with_three_photos();
    let before = state.get_cached_html();
    assert!(before.contains("2020/a.jpg"));

    state.apply_move("2020/a.jpg", "2021/a.jpg");
    let after = state.get_cached_html();
    assert!(!after.contains("2020/a.jpg"));
    assert!(after.contains("2021/a.jpg"));
}

#[test]
fn move_inserts_at_sorted_position() {
    let mut state = state_with_three_photos();
    state.apply_move("2020/a.jpg", "2021/a.jpg");
    assert_eq!(state.year_files("2021"), vec!["2021/a.jpg", "2021/c.jpg"]);
    assert_eq!(state.year_files("2020"), vec!["2020/b.jpg"]);
    assert_eq!(state.get_tags("2021/a.jpg"), vec!["vacances"]);
}

#[test]
fn delete_drops_empty_year() {
    let mut state = state_with_three_photos();
    state.apply_delete("2021/c.jpg");
    assert!(state.year_files("2021").is_empty());
    let html = state.get_cached_html();
    assert!(!html.contains("data-year=\"2021\""));
}

#[test]
fn replace_metadata_reflects_in_html() {
    let mut state = state_with_three_photos();
    let mut meta = Metadata::new();
    meta.add_tag("2020/b.jpg", "montagne");
    state.replace_metadata(meta);
    let html = state.get_cached_html();
    assert!(html.contains("montagne"));
    assert!(!html.contains("vacances"));
}

#[test]
fn all_photo_rels_lists_every_file() {
    let state = state_with_three_photos();
    assert_eq!(
        state.all_photo_rels(),
        vec!["2020/a.jpg", "2020/b.jpg", "2021/c.jpg"]
    );
}

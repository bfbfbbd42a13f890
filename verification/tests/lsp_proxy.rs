use std::sync::mpsc;

use zed_java::json::Json;
use zed_java::lsp::encode_lsp;
use zed_java::lsp_proxy::cache::{
    cache_outcome, cache_path_in, cache_step, partition_cached, CacheStep,
};
use zed_java::lsp_proxy::completions::{
    count_params, process_completions, sanitize_resolved_completion,
};
use zed_java::lsp_proxy::decompile::{
    Completion, DecompileCoordinator, FetchStep, JobStep, Priority, RewriteJob, MAX_QUEUED_JOBS,
    NEGATIVE_CACHE_TTL,
};
use zed_java::lsp_proxy::output::Output;
use zed_java::lsp_proxy::pending::{PendingResponses, Routed};
use zed_java::lsp_proxy::requests::{
    cancel_request, class_source_in, class_source_request, completion_resolve_fallback,
    request_canceled, rewrite_timeout, should_log_completion_fallback, tracked_request_for,
    RewriteKind, TrackedRequest,
};
use zed_java::lsp_proxy::routing::{InputRoute, OutputRoute, Router, SuppressedResponses};
use zed_java::lsp_proxy::sources::{
    collect_jdt_location_uris, collect_jdt_uris, replace_in_strings, replace_jdt_location_uris,
    rewrite_message, uris_to_resolve, RewriteMode,
};
use zed_java::lsp_proxy::startup::{
    is_batch_file, owned_id_prefix, parse_proxy_arguments, proxy_id,
};
use zed_java::table::Table;

fn json(source: &str) -> Json {
    Json::parse(source.as_bytes()).unwrap()
}

fn at<'a>(value: &'a Json, path: &[&str]) -> &'a Json {
    let mut current = value;
    for step in path {
        current = match current {
            Json::Array(items) => &items[step.parse::<usize>().unwrap()],
            _ => current.get(step).unwrap(),
        };
    }
    current
}

fn frame(source: &str) -> Vec<u8> {
    encode_lsp(&json(source)).into_bytes()
}

fn replacements(pairs: &[(&str, &str)]) -> Table<String, String> {
    let mut table = Table::new();
    for (from, to) in pairs {
        table.insert(from.to_string(), to.to_string());
    }
    table
}

type Senders = mpsc::Sender<Json>;

fn router() -> Router<Senders> {
    Router::new("routing-test-".to_string())
}

fn job(token: u64, priority: Priority) -> RewriteJob {
    RewriteJob {
        token,
        message: json("{}"),
        mode: RewriteMode::Locations,
        priority,
        deadline: 0,
        completion: Completion { id: Json::Int(token as i128), sanitize: false, workspace: false },
    }
}

fn strings(items: &[&str]) -> Vec<String> {
    items.iter().map(|item| item.to_string()).collect()
}

#[test]
fn processes_array_completion_results() {
    let mut response = json(
        r#"{"result": [{
            "kind": 2,
            "labelDetails": { "detail": "(String, List<String>)" },
            "sortText": "method"
        }]}"#,
    );

    process_completions(&mut response);

    assert_eq!(at(&response, &["result", "0", "sortText"]), &Json::string("02method"));
}

#[test]
fn applies_list_item_default_snippet_format() {
    let mut response = json(
        r#"{"result": {
            "itemDefaults": { "insertTextFormat": 2 },
            "items": [{ "kind": 2, "insertText": "$TM_SELECTED_TEXT.trim()" }]
        }}"#,
    );

    process_completions(&mut response);

    assert_eq!(at(&response, &["result", "items", "0", "insertText"]), &Json::string(".trim()"));
}

#[test]
fn sanitizes_insert_replace_edit_text() {
    let mut response = json(
        r#"{"result": [{
            "kind": 15,
            "textEdit": {
                "newText": "$TM_SELECTED_TEXT.var",
                "insert": {
                    "start": { "line": 0, "character": 0 },
                    "end": { "line": 0, "character": 0 }
                },
                "replace": {
                    "start": { "line": 0, "character": 0 },
                    "end": { "line": 0, "character": 3 }
                }
            }
        }]}"#,
    );

    process_completions(&mut response);

    assert_eq!(at(&response, &["result", "0", "textEdit", "newText"]), &Json::string(".var"));
}

#[test]
fn leaves_plain_text_completion_unchanged() {
    let mut response = json(
        r#"{"result": [{
            "kind": 1,
            "insertTextFormat": 1,
            "insertText": "$TM_SELECTED_TEXT"
        }]}"#,
    );

    process_completions(&mut response);

    assert_eq!(at(&response, &["result", "0", "insertText"]), &Json::string("$TM_SELECTED_TEXT"));
}

#[test]
fn postfix_var_completion_keeps_jdtls_spacing() {
    let insertion = "var name = \"hello world\";";
    let mut response = json(
        r#"{"result": [{
            "label": ".var",
            "kind": 15,
            "insertTextFormat": 2,
            "textEdit": {
                "newText": "var name = \"hello world\";",
                "range": {
                    "start": { "line": 0, "character": 0 },
                    "end": { "line": 0, "character": 17 }
                }
            }
        }]}"#,
    );

    process_completions(&mut response);

    assert_eq!(at(&response, &["result", "0", "textEdit", "newText"]), &Json::string(insertion));
}

#[test]
fn counts_nested_generic_parameters() {
    assert_eq!(count_params("(Map<String, List<Integer>>, int)"), 2);
    assert_eq!(count_params("()"), 0);
    assert_eq!(count_params("not-a-signature"), 0);
}

#[test]
fn parameters_are_counted_outside_angle_brackets() {
    assert_eq!(count_params("( \t )"), 0);
    assert_eq!(count_params("(int)"), 1);
    assert_eq!(count_params("(a,b,c)"), 3);
    assert_eq!(count_params("("), 0);
    assert_eq!(count_params("(>,<)"), 1);
}

#[test]
fn items_with_fewer_parameters_sort_first() {
    let mut response = json(
        r#"{"result": [
            {"kind": 3, "labelDetails": {"detail": "(a,b,c,d,e,f,g,h,i,j,k)"}},
            {"kind": 2, "labelDetails": {"detail": "(a,b)"}, "sortText": "z"},
            {"kind": 2},
            7
        ]}"#,
    );

    process_completions(&mut response);

    let eleven = at(&response, &["result", "0", "sortText"]).as_str().unwrap();
    let two = at(&response, &["result", "1", "sortText"]).as_str().unwrap();
    assert_eq!(eleven, "11");
    assert_eq!(two, "02z");
    assert!(two < eleven);
    assert_eq!(at(&response, &["result", "2", "sortText"]), &Json::string("00"));
    assert_eq!(at(&response, &["result", "3"]), &Json::Int(7));
}

#[test]
fn resolved_items_hold_no_placeholder() {
    let mut response = json(
        r#"{"id": 1, "result": {"insertText": "a$TM_SELECTED_TEXT", "textEditText": 1,
            "textEdit": {"newText": "$TM_SELECTED_TEXT$TM_SELECTED_TEXTb"}}}"#,
    );
    sanitize_resolved_completion(&mut response);
    assert_eq!(
        response,
        json(r#"{"id": 1, "result": {"insertText": "a", "textEditText": 1,
            "textEdit": {"newText": "b"}}}"#)
    );

    let mut error = json(r#"{"id": 1, "error": {}}"#);
    sanitize_resolved_completion(&mut error);
    assert_eq!(error, json(r#"{"id": 1, "error": {}}"#));
}

#[test]
fn rewrites_nested_workspace_symbol_locations() {
    let mut result = json(
        r#"[
            { "location": { "uri": "jdt://contents/java.base/java.lang/String.class" } },
            { "location": { "uri": "file:///workspace/ProjectString.java" } }
        ]"#,
    );
    let table = replacements(&[(
        "jdt://contents/java.base/java.lang/String.class",
        "file:///tmp/String.java",
    )]);

    assert!(replace_jdt_location_uris(&mut result, &table));
    assert_eq!(at(&result, &["0", "location", "uri"]), &Json::string("file:///tmp/String.java"));
    assert_eq!(
        at(&result, &["1", "location", "uri"]),
        &Json::string("file:///workspace/ProjectString.java")
    );
    assert!(!replace_jdt_location_uris(&mut result, &table));
}

#[test]
fn deduplicates_location_uris_before_resolution() {
    let uri = "jdt://contents/java.base/java.lang/String.class";
    let result = json(
        r#"[{ "uri": "jdt://contents/java.base/java.lang/String.class" },
            { "targetUri": "jdt://contents/java.base/java.lang/String.class" }]"#,
    );
    let mut uris = Vec::new();

    collect_jdt_location_uris(&result, &mut uris);

    assert_eq!(uris, vec![uri]);
}

#[test]
fn ignores_jdt_uris_outside_location_fields() {
    let result = json(
        r#"{
            "documentation": "jdt://contents/java.base/java.lang/String.class",
            "data": { "sourceUri": "jdt://contents/java.base/java.lang/Object.class" }
        }"#,
    );
    let mut uris = Vec::new();

    collect_jdt_location_uris(&result, &mut uris);

    assert!(uris.is_empty());
}

#[test]
fn uris_in_texts_end_where_the_text_goes_on() {
    let value = json(
        r#"{"b": ["see [x](jdt://a/B.class) and <jdt://c> or `jdt://a/B.class`"],
            "a": "jdt://d\u00a0jdt://e'"}"#,
    );
    let mut uris = Vec::new();
    collect_jdt_uris(&value, &mut uris);
    assert_eq!(uris, vec!["jdt://d", "jdt://e", "jdt://a/B.class", "jdt://c"]);
}

#[test]
fn replacements_reach_all_texts() {
    let mut value = json(r#"{"k": ["x jdt://a jdt://a", 1], "m": "jdt://b"}"#);
    replace_in_strings(&mut value, &replacements(&[("jdt://a", "file:///a")]));
    assert_eq!(value, json(r#"{"k": ["x file:///a file:///a", 1], "m": "jdt://b"}"#));
}

#[test]
fn answers_are_rewritten_in_their_results_alone() {
    let mut message = json(r#"{"id": 1, "uri": "jdt://a", "result": {"uri": "jdt://a", "x": "jdt://b"}}"#);
    assert_eq!(uris_to_resolve(&message, RewriteMode::Locations), vec!["jdt://a"]);
    assert_eq!(uris_to_resolve(&message, RewriteMode::Strings), vec!["jdt://a", "jdt://b"]);
    assert!(uris_to_resolve(&json("{}"), RewriteMode::Strings).is_empty());

    let table = replacements(&[("jdt://a", "file:///a"), ("jdt://b", "file:///b")]);
    rewrite_message(&mut message, RewriteMode::Locations, &table);
    assert_eq!(
        message,
        json(r#"{"id": 1, "uri": "jdt://a", "result": {"uri": "file:///a", "x": "jdt://b"}}"#)
    );
    rewrite_message(&mut message, RewriteMode::Strings, &table);
    assert_eq!(at(&message, &["result", "x"]), &Json::string("file:///b"));
}

#[test]
fn cache_names_use_stable_digest_and_sanitized_name() {
    let directory = "/tmp/cache";
    let first = cache_path_in(directory, "jdt://contents/a/../../Bad Name.class", false);
    let second = cache_path_in(directory, "jdt://contents/a/../../Bad Name.class", false);

    assert_eq!(first, second);
    let path = std::path::Path::new(&first);
    assert_eq!(path.parent(), Some(std::path::Path::new(directory)));
    assert!(path.file_name().unwrap().to_string_lossy().starts_with("Bad_Name-"));
    assert_eq!(path.extension().unwrap(), "java");
}

#[test]
fn cache_names_come_from_the_class() {
    let name = |uri: &str| {
        let path = cache_path_in("", uri, false);
        path[..path.len() - "-0000000000000000000000000000000000000000.java".len()].to_string()
    };
    assert_eq!(name("jdt://contents/rt.jar/java.util/List.class?=p/%3Cjava.util%28List.class"), "List");
    assert_eq!(name("jdt://contents/x/A.java?b=c/d.class"), "A");
    assert_eq!(name("jdt://contents/x/A.txt"), "Decompiled");
    assert_eq!(cache_path_in("d/", "abc", false), "d/Decompiled-a9993e364706816aba3e25717850c26c9cd0d89d.java");
}

#[test]
fn cached_sources_are_written_through_a_temporary_file() {
    match cache_step("/c", "jdt://A.class", b"class A {}", true, false, 7, 3, false) {
        CacheStep::Write { temporary, target } => {
            assert_eq!(target, cache_path_in("/c", "jdt://A.class", false));
            assert_eq!(temporary, target.replace(".java", ".tmp-7-3"));
            let uri = Some(format!("file://{target}"));
            assert_eq!(cache_outcome(&target, true, false, false), (uri.clone(), false));
            assert_eq!(cache_outcome(&target, false, true, false), (uri, true));
            assert_eq!(cache_outcome(&target, false, false, false), (None, true));
        }
        _ => panic!("expected a write"),
    }
    match cache_step("/c", "jdt://A.class", b"class A {}", true, true, 7, 3, false) {
        CacheStep::Keep(uri) => {
            assert_eq!(uri, format!("file://{}", cache_path_in("/c", "jdt://A.class", false)));
        }
        _ => panic!("expected the kept file"),
    }
}

#[test]
fn sources_without_content_are_not_kept() {
    assert!(matches!(
        cache_step("/c", "jdt://A.class", b"", true, false, 7, 3, false),
        CacheStep::Skip
    ));
    assert!(matches!(
        cache_step("/c", "jdt://A.class", b"x", false, false, 7, 3, false),
        CacheStep::Skip
    ));
}

#[test]
fn kept_sources_are_not_fetched() {
    let uris = strings(&["jdt://a.class", "jdt://b.class"]);
    let (found, missing) = partition_cached("/c", &uris, &vec![true, false], false);
    assert_eq!(missing, vec!["jdt://b.class"]);
    assert_eq!(found.entries.len(), 1);
    assert_eq!(
        found.get(&"jdt://a.class".to_string()),
        Some(&format!("file://{}", cache_path_in("/c", "jdt://a.class", false)))
    );
}

fn next_fetch(coordinator: &mut DecompileCoordinator) -> Option<(String, Priority, String)> {
    match coordinator.take_uri_work() {
        FetchStep::Fetch { uri, priority, request_id } => Some((uri, priority, request_id)),
        _ => None,
    }
}

#[test]
fn waiters_share_one_fetch() {
    let mut coordinator = DecompileCoordinator::new("test-".to_string());
    let uris = strings(&["jdt://a"]);
    assert!(coordinator.begin_resolution(1, &uris, Priority::Interactive, 0));
    assert!(coordinator.begin_resolution(2, &uris, Priority::Interactive, 0));

    let (uri, priority, id) = next_fetch(&mut coordinator).unwrap();
    assert_eq!((uri.as_str(), priority, id.as_str()), ("jdt://a", Priority::Interactive, "test-decompile-1"));
    assert!(next_fetch(&mut coordinator).is_none());

    let mut found = Table::new();
    assert_eq!(coordinator.collect_ready(1, &uris, 50, 10, &mut found), Some(40));
    coordinator.finish_fetch(&uri, priority, &id, Some("file:///a".to_string()), 20);
    for token in [1, 2] {
        let mut found = Table::new();
        assert_eq!(coordinator.collect_ready(token, &uris, 50, 20, &mut found), None);
        assert_eq!(found.get(&uri), Some(&"file:///a".to_string()));
        assert!(coordinator.end_resolution(token, &uris).is_empty());
    }
}

#[test]
fn a_shared_fetch_survives_one_cancellation() {
    let mut coordinator = DecompileCoordinator::new("test-".to_string());
    let uris = strings(&["jdt://a"]);
    coordinator.begin_resolution(1, &uris, Priority::Interactive, 0);
    coordinator.begin_resolution(2, &uris, Priority::Interactive, 0);
    let (_, _, id) = next_fetch(&mut coordinator).unwrap();

    assert!(coordinator.cancel(1).is_empty());
    assert!(coordinator.is_canceled(1));
    let mut found = Table::new();
    assert_eq!(coordinator.collect_ready(1, &uris, 50, 0, &mut found), None);
    assert_eq!(coordinator.collect_ready(2, &uris, 50, 0, &mut found), Some(50));
    assert_eq!(coordinator.cancel(2), vec![id]);
    assert!(coordinator.consume_cancellation(1));
    assert!(!coordinator.consume_cancellation(1));
    assert!(!coordinator.begin_resolution(2, &uris, Priority::Interactive, 0));
}

#[test]
fn failed_fetches_are_not_repeated_at_once() {
    let mut coordinator = DecompileCoordinator::new("test-".to_string());
    let uris = strings(&["jdt://a"]);
    coordinator.begin_resolution(1, &uris, Priority::Interactive, 0);
    let (uri, priority, id) = next_fetch(&mut coordinator).unwrap();
    coordinator.finish_fetch(&uri, priority, &id, None, 100);
    coordinator.end_resolution(1, &uris);

    coordinator.begin_resolution(2, &uris, Priority::Interactive, 99 + NEGATIVE_CACHE_TTL);
    assert!(next_fetch(&mut coordinator).is_none());
    let mut found = Table::new();
    assert_eq!(coordinator.collect_ready(2, &uris, 9999, 100, &mut found), None);
    assert!(found.entries.is_empty());
    coordinator.end_resolution(2, &uris);

    coordinator.begin_resolution(3, &uris, Priority::Interactive, 100 + NEGATIVE_CACHE_TTL);
    assert_eq!(next_fetch(&mut coordinator).unwrap().2, "test-decompile-2");
}

#[test]
fn interactive_fetches_come_before_bulk_ones() {
    let mut coordinator = DecompileCoordinator::new("test-".to_string());
    coordinator.begin_resolution(1, &strings(&["jdt://a", "jdt://b", "jdt://c"]), Priority::Bulk, 0);
    let first = next_fetch(&mut coordinator).unwrap();
    assert_eq!((first.0.as_str(), first.1), ("jdt://a", Priority::Bulk));
    assert!(next_fetch(&mut coordinator).is_none());

    coordinator.begin_resolution(2, &strings(&["jdt://c"]), Priority::Interactive, 0);
    let second = next_fetch(&mut coordinator).unwrap();
    assert_eq!((second.0.as_str(), second.1), ("jdt://c", Priority::Interactive));
    coordinator.finish_fetch(&first.0, first.1, &first.2, None, 0);
    assert_eq!(next_fetch(&mut coordinator).unwrap().0, "jdt://b");
}

#[test]
fn only_the_current_request_settles_a_fetch() {
    let mut coordinator = DecompileCoordinator::new("test-".to_string());
    let uris = strings(&["jdt://a"]);
    coordinator.begin_resolution(1, &uris, Priority::Interactive, 0);
    let (uri, priority, id) = next_fetch(&mut coordinator).unwrap();
    coordinator.finish_fetch(&uri, priority, "other", Some("file:///x".to_string()), 0);
    let mut found = Table::new();
    assert_eq!(coordinator.collect_ready(1, &uris, 10, 0, &mut found), Some(10));
    coordinator.finish_fetch(&uri, priority, &id, Some("file:///a".to_string()), 0);
    assert_eq!(coordinator.collect_ready(1, &uris, 10, 0, &mut found), None);
    assert_eq!(found.entries.len(), 1);
}

#[test]
fn the_deadline_ends_the_wait() {
    let mut coordinator = DecompileCoordinator::new("test-".to_string());
    let uris = strings(&["jdt://a", "jdt://b"]);
    coordinator.begin_resolution(1, &uris, Priority::Interactive, 0);
    let (uri, priority, id) = next_fetch(&mut coordinator).unwrap();
    coordinator.finish_fetch(&uri, priority, &id, Some("file:///a".to_string()), 5);
    let mut found = Table::new();
    assert_eq!(coordinator.collect_ready(1, &uris, 70, 70, &mut found), None);
    assert_eq!(found.entries.len(), 1);
}

#[test]
fn saturated_queues_hand_the_job_back() {
    let mut coordinator = DecompileCoordinator::new("test-".to_string());
    for token in 0..MAX_QUEUED_JOBS as u64 {
        assert!(coordinator.submit(job(token, Priority::Interactive)).is_ok());
    }
    let back = coordinator.submit(job(99, Priority::Bulk)).unwrap_err();
    assert_eq!(back.token, 99);
    match coordinator.take_job() {
        JobStep::Run(first) => assert_eq!(first.token, 0),
        _ => panic!("expected a job"),
    }
    assert!(coordinator.submit(back).is_ok());
}

#[test]
fn a_bulk_job_takes_the_place_of_the_one_before() {
    let mut coordinator = DecompileCoordinator::new("test-".to_string());
    assert!(coordinator.submit(job(1, Priority::Bulk)).is_ok());
    assert!(coordinator.submit(job(2, Priority::Bulk)).is_ok());
    assert!(!coordinator.is_canceled(1));
    assert!(coordinator.submit(job(3, Priority::Interactive)).is_ok());
    match coordinator.take_job() {
        JobStep::Run(next) => assert_eq!(next.token, 3),
        _ => panic!("expected the interactive job"),
    }
    match coordinator.take_job() {
        JobStep::Run(next) => assert_eq!(next.token, 2),
        _ => panic!("expected the bulk job"),
    }
    assert!(coordinator.submit(job(4, Priority::Bulk)).is_ok());
    assert!(coordinator.is_canceled(2));
    assert!(matches!(coordinator.take_job(), JobStep::Wait));
    coordinator.finish_job(2, Priority::Bulk, 0);
    assert!(!coordinator.is_canceled(2));
    assert!(matches!(coordinator.take_job(), JobStep::Run(_)));
}

#[test]
fn nothing_is_done_after_shutdown() {
    let mut coordinator = DecompileCoordinator::new("test-".to_string());
    assert!(coordinator.submit(job(1, Priority::Interactive)).is_ok());
    coordinator.shutdown();
    assert!(matches!(coordinator.take_job(), JobStep::Stop));
    assert!(matches!(coordinator.take_uri_work(), FetchStep::Stop));
    assert!(coordinator.submit(job(2, Priority::Interactive)).is_err());
}

#[test]
fn stdin_router_tracks_requests_and_forwards_cancellation_before_rewrite() {
    let mut router = router();
    let request =
        frame(r#"{"jsonrpc": "2.0", "id": 7, "method": "textDocument/definition", "params": {}}"#);

    assert_eq!(router.route_zed_message(&request).0, InputRoute::Forward);
    assert_eq!(
        router.watched.get(&json("7")),
        Some(&TrackedRequest::new(1, "textDocument/definition", RewriteKind::Locations, None))
    );

    let cancellation =
        frame(r#"{"jsonrpc": "2.0", "method": "$/cancelRequest", "params": { "id": 7 }}"#);
    assert_eq!(router.route_zed_message(&cancellation).0, InputRoute::Forward);
    assert!(router.watched.entries.is_empty());
}

#[test]
fn stdout_router_returns_processed_completion_values() {
    let mut router = router();
    router.jobs = 2;
    router.watched.insert(
        json("9"),
        TrackedRequest::new(1, "textDocument/completion", RewriteKind::Completion, None),
    );
    let response = frame(
        r#"{"jsonrpc": "2.0", "id": 9, "result": [{
            "kind": 15, "textEditText": "$TM_SELECTED_TEXT.field"
        }]}"#,
    );

    assert_eq!(
        router.route_jdtls_message(response, 0).route,
        OutputRoute::Value(json(
            r#"{"jsonrpc": "2.0", "id": 9, "result": [{ "kind": 15, "textEditText": ".field" }]}"#
        ))
    );
    assert!(router.watched.entries.is_empty());
}

#[test]
fn stdout_router_consumes_pending_and_suppressed_responses() {
    let mut router = router();
    let (sender, receiver) = mpsc::channel();
    router.pending.register(json("\"proxy-request\""), sender);
    let pending_response = r#"{"jsonrpc": "2.0", "id": "proxy-request", "result": "ok"}"#;

    let routing = router.route_jdtls_message(frame(pending_response), 0);
    assert_eq!(routing.route, OutputRoute::Consumed);
    let (sender, message) = routing.delivery.unwrap();
    sender.send(message).unwrap();
    assert_eq!(receiver.recv().unwrap(), json(pending_response));

    router.suppressed.insert(json("\"superseded-request\""));
    let suppressed_response = r#"{"jsonrpc": "2.0", "id": "superseded-request", "result": null}"#;
    assert_eq!(
        router.route_jdtls_message(frame(suppressed_response), 0).route,
        OutputRoute::Consumed
    );
    assert!(!router.suppressed.contains(&json("\"superseded-request\"")));
}

#[test]
fn stdio_routers_preserve_unhandled_raw_frames() {
    let mut router = router();
    let malformed = b"Content-Length: 6\r\n\r\n{\"id\":".to_vec();

    assert_eq!(router.route_zed_message(&malformed).0, InputRoute::Forward);
    assert_eq!(
        router.route_jdtls_message(malformed.clone(), 0).route,
        OutputRoute::Raw(malformed)
    );
}

#[test]
fn tracks_location_response_methods() {
    let methods = [
        "textDocument/definition",
        "textDocument/declaration",
        "textDocument/typeDefinition",
        "textDocument/implementation",
        "textDocument/references",
        "textDocument/prepareCallHierarchy",
        "callHierarchy/incomingCalls",
        "callHierarchy/outgoingCalls",
        "textDocument/prepareTypeHierarchy",
        "typeHierarchy/supertypes",
        "typeHierarchy/subtypes",
        "workspace/symbol",
    ];

    for method in methods {
        let request = json(&format!(
            r#"{{"jsonrpc": "2.0", "id": 7, "method": "{method}", "params": {{}}}}"#
        ));

        assert_eq!(
            tracked_request_for(&request, 42),
            Some((
                json("7"),
                TrackedRequest::new(42, method, RewriteKind::Locations, None)
            )),
            "{method} should rewrite location URIs"
        );
    }
}

#[test]
fn tracks_completion_resolve_documentation() {
    let request = json(
        r#"{"jsonrpc": "2.0", "id": "resolve-1", "method": "completionItem/resolve",
            "params": { "label": "String" }}"#,
    );

    assert_eq!(
        tracked_request_for(&request, 43),
        Some((
            json("\"resolve-1\""),
            TrackedRequest::new(
                43,
                "completionItem/resolve",
                RewriteKind::Documentation,
                Some(json(r#"{ "label": "String" }"#))
            )
        ))
    );
}

#[test]
fn ignores_untracked_requests_and_notifications() {
    let request =
        json(r#"{"jsonrpc": "2.0", "id": 8, "method": "textDocument/rename", "params": {}}"#);
    let notification =
        json(r#"{"jsonrpc": "2.0", "method": "textDocument/didChange", "params": {}}"#);

    assert_eq!(tracked_request_for(&request, 1), None);
    assert_eq!(tracked_request_for(&notification, 2), None);
}

#[test]
fn tracks_completion_responses_by_method() {
    let request =
        json(r#"{"jsonrpc": "2.0", "id": 9, "method": "textDocument/completion", "params": {}}"#);

    assert_eq!(
        tracked_request_for(&request, 44),
        Some((
            json("9"),
            TrackedRequest::new(44, "textDocument/completion", RewriteKind::Completion, None)
        ))
    );
}

#[test]
fn activating_rewrite_moves_request_atomically() {
    let id = json("9");
    let mut router = router();
    router.jobs = 45;
    router.watched.insert(
        id.clone(),
        TrackedRequest::new(44, "textDocument/definition", RewriteKind::Locations, None),
    );

    assert!(router.activate_rewrite(&id, 44));
    assert!(router.watched.entries.is_empty());
    assert_eq!(router.active.get(&id), Some(&44));
    assert!(!router.activate_rewrite(&id, 44));
}

#[test]
fn retiring_tracked_request_returns_id_for_late_suppression() {
    let id = json("\"workspace-1\"");
    let mut router = router();
    router.jobs = 46;
    router.watched.insert(
        id.clone(),
        TrackedRequest::new(45, "workspace/symbol", RewriteKind::Locations, None),
    );

    assert_eq!(router.retire_request_token(45), (Some(id), false));
    assert!(router.watched.entries.is_empty());
}

#[test]
fn suppressed_response_ids_remain_owned_until_the_response_arrives() {
    let mut suppressed = SuppressedResponses::new();
    for id in 0..=1024 {
        suppressed.insert(Json::Int(id));
    }

    assert!(suppressed.contains(&json("0")));
    assert!(suppressed.take(&json("0")));
    assert!(!suppressed.contains(&json("0")));
    assert!(suppressed.take(&json("1024")));
}

#[test]
fn cancellation_response_preserves_request_id() {
    assert_eq!(
        request_canceled(&json("\"request-1\"")),
        json(
            r#"{"jsonrpc": "2.0", "id": "request-1",
                "error": { "code": -32800, "message": "Request cancelled." }}"#
        )
    );
}

#[test]
fn cancellation_removes_unanswered_tracking_state() {
    let id = json("\"hover-1\"");
    let mut router = router();
    router.jobs = 47;
    router.watched.insert(
        id.clone(),
        TrackedRequest::new(46, "textDocument/hover", RewriteKind::Documentation, None),
    );

    let (request, active_token) = router.take_request_for_cancellation(&id);

    assert_eq!(request.map(|request| request.token), Some(46));
    assert_eq!(active_token, None);
    assert!(router.watched.entries.is_empty());
}

#[test]
fn falls_back_only_for_internal_completion_resolve_errors() {
    let request = TrackedRequest::new(
        1,
        "completionItem/resolve",
        RewriteKind::Documentation,
        Some(json(r#"{ "label": "value", "kind": 6 }"#)),
    );
    let internal = json(
        r#"{"jsonrpc": "2.0", "id": 5,
            "error": { "code": -32603, "message": "Invalid completion proposal" }}"#,
    );
    let canceled = json(
        r#"{"jsonrpc": "2.0", "id": 5,
            "error": { "code": -32800, "message": "Request cancelled" }}"#,
    );

    assert_eq!(
        completion_resolve_fallback(&internal, &request),
        Some(json(
            r#"{"jsonrpc": "2.0", "id": 5, "result": { "label": "value", "kind": 6 }}"#
        ))
    );
    assert_eq!(completion_resolve_fallback(&canceled, &request), None);
}

#[test]
fn malformed_completion_resolve_params_do_not_fallback() {
    let request = json(
        r#"{"jsonrpc": "2.0", "id": 5, "method": "completionItem/resolve", "params": null}"#,
    );
    let (_, request) = tracked_request_for(&request, 1).unwrap();
    let error = json(
        r#"{"jsonrpc": "2.0", "id": 5,
            "error": { "code": -32603, "message": "Internal error" }}"#,
    );

    assert_eq!(completion_resolve_fallback(&error, &request), None);
}

#[test]
fn failed_resolutions_are_answered_with_the_item() {
    let mut router = router();
    router.route_zed_message(&frame(
        r#"{"id": 5, "method": "completionItem/resolve", "params": {"label": "x"}}"#,
    ));
    let routing = router.route_jdtls_message(frame(r#"{"id": 5, "error": {"code": -32603}}"#), 0);
    assert!(routing.fallback);
    assert_eq!(
        routing.route,
        OutputRoute::Value(json(r#"{"jsonrpc": "2.0", "id": 5, "result": {"label": "x"}}"#))
    );
    assert!(router.watched.entries.is_empty());
}

#[test]
fn rewritten_answers_reach_the_editor_once() {
    let mut router = router();
    router.route_zed_message(&frame(r#"{"id": 1, "method": "textDocument/hover"}"#));
    let answer = r#"{"id": 1, "result": "jdt://a"}"#;
    let routing = router.route_jdtls_message(frame(answer), 10);
    assert_eq!(routing.route, OutputRoute::Consumed);

    let job = match router.decompile.take_job() {
        JobStep::Run(job) => job,
        _ => panic!("expected a job"),
    };
    assert_eq!((job.mode, job.priority, job.deadline), (RewriteMode::Strings, Priority::Interactive, 510));
    let mut message = job.message;
    rewrite_message(&mut message, job.mode, &replacements(&[("jdt://a", "file:///a")]));
    router.settle_job(job.token, job.priority, job.completion, message, 20);

    let written = router.output.take_message().unwrap();
    assert_eq!(written, frame(r#"{"id": 1, "result": "file:///a"}"#));
    assert!(router.output.take_message().is_none());
}

#[test]
fn a_canceled_rewrite_is_answered_once() {
    let mut router = router();
    router.route_zed_message(&frame(r#"{"id": 1, "method": "textDocument/definition"}"#));
    router.route_jdtls_message(frame(r#"{"id": 1, "result": []}"#), 0);
    let job = match router.decompile.take_job() {
        JobStep::Run(job) => job,
        _ => panic!("expected a job"),
    };
    let cancellation = frame(r#"{"method": "$/cancelRequest", "params": {"id": 1}}"#);
    assert_eq!(router.route_zed_message(&cancellation).0, InputRoute::Consumed);
    assert!(router.decompile.is_canceled(job.token));
    router.settle_job(job.token, job.priority, job.completion, job.message, 0);
    assert!(!router.decompile.is_canceled(job.token));

    let written = router.output.take_message().unwrap();
    assert_eq!(written, encode_lsp(&request_canceled(&json("1"))).into_bytes());
    assert!(router.output.take_message().is_none());
}

#[test]
fn a_later_symbol_search_supersedes_the_one_before() {
    let mut router = router();
    let search = |id: u64| frame(&format!(r#"{{"id": {id}, "method": "workspace/symbol"}}"#));
    assert_eq!(router.route_zed_message(&search(1)).0, InputRoute::Forward);
    assert_eq!(router.route_zed_message(&search(2)).0, InputRoute::Forward);
    assert_eq!(router.take_server_messages(), vec![cancel_request(&json("1"))]);
    assert!(router.take_server_messages().is_empty());

    let late = frame(r#"{"id": 1, "result": []}"#);
    assert_eq!(router.route_jdtls_message(late.clone(), 0).route, OutputRoute::Consumed);
    assert_eq!(router.route_jdtls_message(late.clone(), 0).route, OutputRoute::Raw(late));
    assert_eq!(
        router.route_jdtls_message(frame(r#"{"id": 2, "result": []}"#), 0).route,
        OutputRoute::Consumed
    );
    assert_eq!(router.route_zed_message(&search(3)).0, InputRoute::Forward);
    assert!(router.decompile.bulk_jobs.is_empty());
    assert_eq!(router.latest_workspace, Some(3));
}

#[test]
fn answers_pass_unchanged_where_too_many_wait() {
    let mut router = router();
    for token in 0..MAX_QUEUED_JOBS as u64 {
        assert!(router.decompile.submit(job(1000 + token, Priority::Interactive)).is_ok());
    }
    router.route_zed_message(&frame(r#"{"id": "x", "method": "textDocument/references"}"#));
    let answer = r#"{"id": "x", "result": [{"uri": "jdt://a"}]}"#;
    assert_eq!(router.route_jdtls_message(frame(answer), 0).route, OutputRoute::Consumed);
    assert_eq!(router.output.take_message(), Some(frame(answer)));
    assert!(router.active.entries.is_empty());
}

#[test]
fn canceled_fetches_are_called_off_at_the_server() {
    let mut router = router();
    let (sender, _receiver) = mpsc::channel();
    router.pending.register(Json::string("p-decompile-1"), sender);
    router.cancel_fetch("p-decompile-1");
    assert_eq!(
        router.take_server_messages(),
        vec![json(
            r#"{"jsonrpc": "2.0", "method": "$/cancelRequest", "params": {"id": "p-decompile-1"}}"#
        )]
    );
    let late = frame(r#"{"id": "p-decompile-1", "result": "x"}"#);
    let routing = router.route_jdtls_message(late, 0);
    assert_eq!(routing.route, OutputRoute::Consumed);
    assert!(routing.delivery.is_none());
}

#[test]
fn an_answer_to_a_request_made_anew_is_not_sent() {
    let mut router = router();
    router.route_zed_message(&frame(r#"{"id": 1, "method": "textDocument/definition"}"#));
    router.route_jdtls_message(frame(r#"{"id": 1, "result": []}"#), 0);
    let job = match router.decompile.take_job() {
        JobStep::Run(job) => job,
        _ => panic!("expected a job"),
    };
    router.active.remove(&json("1"));
    router.complete_rewrite(job.token, job.completion, job.message);
    assert!(router.output.take_message().is_none());
}

#[test]
fn fetched_sources_go_to_whoever_waits_for_them() {
    let mut router = router();
    let (sender, receiver) = mpsc::channel();
    let request = router.begin_fetch("jdt://a", "p-decompile-1", sender);
    assert_eq!(request, class_source_request(&Json::string("p-decompile-1"), "jdt://a"));
    let routing = router.route_jdtls_message(frame(r#"{"id": "p-decompile-1", "result": "x"}"#), 0);
    let (sender, message) = routing.delivery.unwrap();
    sender.send(message).unwrap();
    assert_eq!(class_source_in(&receiver.recv().unwrap()).as_deref(), Some("x"));
}

#[test]
fn the_proxy_needs_a_directory_and_a_program() {
    let parsed = parse_proxy_arguments(&strings(&["/w", "jdtls", "-a", "-b"])).unwrap();
    assert_eq!(parsed.workdir, "/w");
    assert_eq!(parsed.program, "jdtls");
    assert_eq!(parsed.arguments, vec!["-a", "-b"]);
    assert!(parse_proxy_arguments(&strings(&["/w"])).is_none());
    assert_eq!(proxy_id("/a/b//"), "2f612f62");
    assert_eq!(proxy_id("/a/b"), proxy_id("/a/b/"));
    assert_eq!(owned_id_prefix("2f"), "2f-proxy-");
    assert!(is_batch_file("jdtls.bat"));
    assert!(is_batch_file("x.cmd"));
    assert!(!is_batch_file("jdtls"));
}

#[test]
fn class_sources_are_asked_for_by_their_uri() {
    assert_eq!(
        class_source_request(&Json::string("i"), "jdt://a"),
        json(
            r#"{"jsonrpc": "2.0", "id": "i", "method": "java/classFileContents",
                "params": {"uri": "jdt://a"}}"#
        )
    );
    assert_eq!(class_source_in(&json(r#"{"result": "class A {}"}"#)).as_deref(), Some("class A {}"));
    assert_eq!(class_source_in(&json(r#"{"result": ""}"#)), None);
    assert_eq!(class_source_in(&json(r#"{"result": null}"#)), None);
}

#[test]
fn answers_are_held_back_for_a_while() {
    assert_eq!(rewrite_timeout("textDocument/hover"), 500);
    assert_eq!(rewrite_timeout("workspace/symbol"), 1000);
    assert_eq!(rewrite_timeout("textDocument/definition"), 2000);
}

#[test]
fn fallbacks_are_logged_once_a_minute() {
    let mut last = None;
    assert!(should_log_completion_fallback(&mut last, 5));
    assert!(!should_log_completion_fallback(&mut last, 60004));
    assert!(!should_log_completion_fallback(&mut last, 0));
    assert!(should_log_completion_fallback(&mut last, 60005));
    assert_eq!(last, Some(60005));
}

#[test]
fn routes_each_pending_response_once() {
    let mut pending = PendingResponses::new();
    let id = json("\"proxy-owned-1\"");
    let (sender, receiver) = mpsc::channel();
    pending.register(id, sender);
    let response = json(r#"{"jsonrpc": "2.0", "id": "proxy-owned-1", "result": "ok"}"#);

    match pending.route(&response) {
        Routed::Delivered(sender) => sender.send(response.clone()).unwrap(),
        _ => panic!("expected a delivery"),
    }
    assert_eq!(receiver.recv().unwrap(), response);
    assert!(matches!(pending.route(&response), Routed::Passed));
}

#[test]
fn swallows_late_owned_responses_but_not_client_responses() {
    let mut pending: PendingResponses<u32> = PendingResponses::new();
    let retired = json("\"proxy-owned-late\"");
    pending.register(retired.clone(), 1);
    pending.remove(&retired);

    let response = json(r#"{"jsonrpc": "2.0", "id": "proxy-owned-late", "result": null}"#);
    assert!(matches!(pending.route(&response), Routed::Swallowed));
    assert!(matches!(pending.route(&response), Routed::Passed));
    assert!(matches!(
        pending.route(&json(r#"{"jsonrpc": "2.0", "id": 7, "result": null}"#)),
        Routed::Passed
    ));
    assert!(matches!(
        pending.route(&json(
            r#"{"jsonrpc": "2.0", "id": "proxy-owned-server-request",
                "method": "workspace/applyEdit", "params": {}}"#
        )),
        Routed::Passed
    ));
}

#[test]
fn does_not_claim_unregistered_prefixed_ids() {
    let mut pending: PendingResponses<u32> = PendingResponses::new();

    assert!(matches!(
        pending.route(&json(
            r#"{"jsonrpc": "2.0", "id": "proxy-owned-editor-request", "result": null}"#
        )),
        Routed::Passed
    ));
}

#[test]
fn ownership_is_retained_until_a_response_arrives() {
    let mut pending: PendingResponses<u32> = PendingResponses::new();
    for id in 0..=1024 {
        let id = Json::string(&format!("proxy-owned-{id}"));
        pending.register(id.clone(), 0);
        pending.remove(&id);
    }

    assert!(matches!(
        pending.route(&json(r#"{"jsonrpc": "2.0", "id": "proxy-owned-0", "result": null}"#)),
        Routed::Swallowed
    ));
    pending.clear();
    assert!(matches!(
        pending.route(&json(r#"{"jsonrpc": "2.0", "id": "proxy-owned-1", "result": null}"#)),
        Routed::Passed
    ));
}

#[test]
fn frames_are_written_in_submission_order() {
    let mut output = Output::start();
    assert!(output.send_raw(b"first".to_vec()));
    assert!(output.send_raw(b"second".to_vec()));
    assert!(output.send_value(&json("[]")));
    output.shutdown();
    assert!(!output.failed());
    assert_eq!(output.take_message().unwrap(), b"first");
    assert_eq!(output.take_message().unwrap(), b"second");
    assert_eq!(output.take_message().unwrap(), b"Content-Length: 2\r\n\r\n[]");
    assert!(output.take_message().is_none());
}

#[test]
fn a_failed_writer_is_reported() {
    let mut output = Output::start();
    assert!(output.send_raw(b"message".to_vec()));
    assert!(output.take_message().is_some());
    output.fail();
    assert!(output.failed());
    assert!(!output.send_raw(b"lost".to_vec()));

    let mut closed = Output::start();
    closed.shutdown();
    assert!(!closed.send_raw(b"lost".to_vec()));
    assert!(closed.failed());
}

#[test]
fn competing_writers_use_different_temporary_files() {
    let uri = "jdt://contents/java.base/java.lang/String.class";
    let temporary = |process, sequence| {
        match cache_step("/c/", uri, b"class", true, false, process, sequence, false) {
            CacheStep::Write { temporary, target } => {
                assert_eq!(target, cache_path_in("/c/", uri, false));
                assert_ne!(temporary, target);
                temporary
            }
            _ => panic!("the source is to be written"),
        }
    };
    let names = [temporary(1, 1), temporary(1, 2), temporary(2, 1), temporary(11, 1)];
    for i in 0..names.len() {
        for j in 0..i {
            assert_ne!(names[i], names[j]);
        }
    }
}

#[test]
fn windows_cache_files_have_one_separator_before_their_names() {
    let name = "Decompiled-a9993e364706816aba3e25717850c26c9cd0d89d.java";
    for (directory, expected) in [
        (r"C:\T", r"C:\T\"),
        (r"C:\T\", r"C:\T\"),
        (r"C:/T/", r"C:/T/"),
        (r"C:", r"C:"),
        (r"", r""),
        (r"\\server\share", r"\\server\share\"),
    ] {
        assert_eq!(cache_path_in(directory, "abc", true), format!("{expected}{name}"));
    }
    match cache_step(r"C:\T", "abc", b"x", true, false, 7, 3, true) {
        CacheStep::Write { temporary, target } => {
            assert_eq!(target, format!(r"C:\T\{name}"));
            assert_eq!(
                temporary,
                r"C:\T\Decompiled-a9993e364706816aba3e25717850c26c9cd0d89d.tmp-7-3"
            );
            assert_eq!(
                cache_outcome(&target, true, false, true),
                (Some(format!("file:///C:/T/{name}")), false)
            );
        }
        _ => panic!("the source is to be written"),
    }
    let uris = strings(&["abc"]);
    let (found, _) = partition_cached(r"C:\T", &uris, &vec![true], true);
    assert_eq!(found.get(&"abc".to_string()), Some(&format!("file:///C:/T/{name}")));
}

#[test]
fn each_job_that_is_called_off_names_its_orphans() {
    let mut router = router();
    let mut begin = |id: u64, method: &str, uri: &str| {
        router.route_zed_message(&frame(&format!(r#"{{"id": {id}, "method": "{method}"}}"#)));
        let answer = frame(&format!(r#"{{"id": {id}, "result": [{{"uri": "{uri}"}}]}}"#));
        assert_eq!(router.route_jdtls_message(answer, 0).route, OutputRoute::Consumed);
        let job = match router.decompile.take_job() {
            JobStep::Run(job) => job,
            _ => panic!("expected a job"),
        };
        let uris = strings(&[uri]);
        assert!(router.decompile.begin_resolution(job.token, &uris, job.priority, 0));
        match router.decompile.take_uri_work() {
            FetchStep::Fetch { request_id, .. } => request_id,
            _ => panic!("expected a fetch"),
        }
    };
    let definition = begin(5, "textDocument/definition", "jdt://a");
    let search = begin(7, "workspace/symbol", "jdt://b");

    let unrelated = frame(r#"{"id": 9, "method": "textDocument/hover"}"#);
    assert!(router.route_zed_message(&unrelated).1.is_empty());

    let again = frame(r#"{"id": 5, "method": "workspace/symbol"}"#);
    let (route, fetches) = router.route_zed_message(&again);
    assert_eq!(route, InputRoute::Forward);
    assert_eq!(fetches.len(), 3);
    assert_eq!(fetches[0], search);
    assert!(fetches[1..].contains(&search) && fetches[1..].contains(&definition));

    let after = frame(r#"{"id": 10, "method": "textDocument/hover"}"#);
    assert!(router.route_zed_message(&after).1.is_empty());
}

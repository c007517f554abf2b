use omnimind_server::chat::{
    build_retrieval_debug, handle_chat_context, plan_chat_context, retrieval_failed_response,
    safe_retrieval_log_line, ChatContextRequest, ChatContextResponseContext, ChatHistoryMessage,
    ChatPlan, RetrievalSearchStats,
};
use omnimind_server::context::{
    assemble_context_blocks, compute_context_budget, compute_effective_max_block_chars,
    filter_results_by_allowed_source_paths, is_raw_sources_path, order_results_for_context,
    ContextBudget, SourceFilterStats, HYBRID_SOURCES_FLOOR, MAX_CHAT_CONTEXT_SIZE,
};
use omnimind_server::json::Json;
use omnimind_server::mode::{
    parse_retrieval_mode, retrieval_mode_label, scan_roots_for_mode, RetrievalMode,
};
use omnimind_server::order::TextSet;
use omnimind_server::projects::ProjectEntry;
use omnimind_server::scope::{
    normalize_allowed_source_paths, normalize_project_relative_source_path,
    resolve_chat_context_scan_roots, MAX_ALLOWED_SOURCE_PATHS, MAX_ALLOWED_SOURCE_PATH_CHARS,
};
use omnimind_server::scope_check::{ScopeStep, ValidatedSourceFileScope};
use omnimind_server::search::{
    requested_hits, ProjectSearchResponse, ProjectSearchResult, SearchMode, DEFAULT_TOP_K,
};

fn sample_result(path: &str, title: &str, score: f64) -> ProjectSearchResult {
    ProjectSearchResult {
        path: path.to_string(),
        title: title.to_string(),
        snippet: String::new(),
        title_match: false,
        score: score.to_bits(),
        bm25_score: Some(score.to_bits()),
        vector_score: None,
        graph_score: None,
        rrf_score: None,
        images: vec![],
        content: Some(format!("content for {title}")),
        graph_related_to: vec![],
    }
}

fn request(query: &str) -> ChatContextRequest {
    ChatContextRequest {
        query: query.to_string(),
        query_embedding: None,
        history: vec![],
        max_history_messages: None,
        max_context_size: None,
        top_k: None,
        max_block_chars: None,
        output_language: None,
        include_debug: false,
        retrieval_mode: None,
        allowed_source_paths: None,
    }
}

fn project() -> ProjectEntry {
    ProjectEntry {
        id: "project-1".to_string(),
        name: "Project".to_string(),
        path: "/srv/wiki".to_string(),
        current: true,
    }
}

fn at<'a>(value: &'a Json, name: &str) -> &'a Json {
    value.get(name).unwrap()
}

fn items(value: &Json) -> &Vec<Json> {
    match value {
        Json::Array(items) => items,
        _ => panic!("no array: {value:?}"),
    }
}

fn text<'a>(value: &'a Json, name: &str) -> &'a str {
    at(value, name).as_text().unwrap()
}

fn number(value: &Json, name: &str) -> u64 {
    match at(value, name) {
        Json::UInt(n) => *n,
        other => panic!("no number: {other:?}"),
    }
}

fn float(value: &Json, name: &str) -> f64 {
    match at(value, name) {
        Json::Float(bits) => f64::from_bits(*bits),
        other => panic!("no number: {other:?}"),
    }
}

fn flag(value: &Json, name: &str) -> bool {
    match at(value, name) {
        Json::Bool(b) => *b,
        other => panic!("no truth value: {other:?}"),
    }
}

#[test]
fn parse_retrieval_mode_defaults_and_aliases() {
    assert_eq!(parse_retrieval_mode(None), RetrievalMode::Wiki);
    assert_eq!(parse_retrieval_mode(Some("")), RetrievalMode::Wiki);
    assert_eq!(parse_retrieval_mode(Some("wiki")), RetrievalMode::Wiki);
    assert_eq!(parse_retrieval_mode(Some("WiKi")), RetrievalMode::Wiki);
    assert_eq!(
        parse_retrieval_mode(Some("sources_only")),
        RetrievalMode::SourcesOnly
    );
    assert_eq!(
        parse_retrieval_mode(Some("faithful")),
        RetrievalMode::SourcesOnly
    );
    assert_eq!(
        parse_retrieval_mode(Some("sources")),
        RetrievalMode::SourcesOnly
    );
    assert_eq!(parse_retrieval_mode(Some("hybrid")), RetrievalMode::Hybrid);
    assert_eq!(parse_retrieval_mode(Some("all")), RetrievalMode::Hybrid);
    assert_eq!(parse_retrieval_mode(Some("unknown")), RetrievalMode::Wiki);
}

#[test]
fn mode_names_ignore_case_and_edges() {
    assert_eq!(
        parse_retrieval_mode(Some("  Sources_ONLY\t")),
        RetrievalMode::SourcesOnly
    );
    assert_eq!(parse_retrieval_mode(Some("ALL")), RetrievalMode::Hybrid);
}

#[test]
fn labels_name_their_modes() {
    for mode in [
        RetrievalMode::Wiki,
        RetrievalMode::SourcesOnly,
        RetrievalMode::Hybrid,
    ] {
        assert_eq!(parse_retrieval_mode(Some(retrieval_mode_label(mode))), mode);
    }
    assert_eq!(
        retrieval_mode_label(RetrievalMode::SourcesOnly),
        "sources_only"
    );
}

#[test]
fn scan_roots_for_mode_maps_expected_paths() {
    assert_eq!(scan_roots_for_mode(RetrievalMode::Wiki), vec!["wiki"]);
    assert_eq!(
        scan_roots_for_mode(RetrievalMode::SourcesOnly),
        vec!["raw/sources"]
    );
    assert_eq!(
        scan_roots_for_mode(RetrievalMode::Hybrid),
        vec!["wiki", "raw/sources"]
    );
}

#[test]
fn retrieval_debug_always_includes_mode() {
    let mut request = request("q");
    request.retrieval_mode = Some("sources_only".into());
    let inactive_filter = SourceFilterStats {
        active: false,
        allowed_count: 0,
        candidate_count: 0,
        matched_count: 0,
    };
    let compact = build_retrieval_debug(
        &request,
        "sources_only",
        &["raw/sources".to_string()],
        0,
        None,
        inactive_filter,
        None,
    );
    assert_eq!(text(&compact, "retrieval_mode"), "sources_only");
    assert!(!flag(&compact, "source_filter_active"));
    assert_eq!(number(&compact, "source_filter_allowed_count"), 0);
    assert_eq!(number(&compact, "source_filter_matched_count"), 0);
    assert!(compact.get("scan_roots").is_none());
    assert!(compact.get("search_mode").is_none());

    let request_debug = ChatContextRequest {
        include_debug: true,
        ..request
    };
    let full = build_retrieval_debug(
        &request_debug,
        "sources_only",
        &["raw/sources".to_string()],
        3,
        None,
        SourceFilterStats {
            active: true,
            allowed_count: 2,
            candidate_count: 5,
            matched_count: 3,
        },
        Some(RetrievalSearchStats {
            search_mode: "hybrid",
            vector_hits: 4,
            token_hits: 7,
            graph_hits: 1,
        }),
    );
    assert_eq!(text(&full, "retrieval_mode"), "sources_only");
    assert_eq!(number(&full, "result_count"), 3);
    assert_eq!(
        items(at(&full, "scan_roots"))[0].as_text(),
        Some("raw/sources")
    );
    assert!(flag(&full, "include_debug"));
    assert_eq!(text(&full, "search_mode"), "hybrid");
    assert_eq!(number(&full, "vector_hits"), 4);
    assert_eq!(number(&full, "token_hits"), 7);
    assert_eq!(number(&full, "graph_hits"), 1);
    assert!(flag(&full, "source_filter_active"));
    assert_eq!(number(&full, "source_filter_allowed_count"), 2);
    assert_eq!(number(&full, "source_filter_candidate_count"), 5);
    assert_eq!(number(&full, "source_filter_matched_count"), 3);
    assert_eq!(number(&full, "source_filter_excluded_count"), 2);
    assert!(!format!("{full:?}").contains("raw/sources/private.md"));
}

#[test]
fn full_debug_tells_limits_and_history() {
    let mut request = request("q");
    request.include_debug = true;
    request.top_k = Some(999);
    request.max_context_size = Some(1000);
    request.max_block_chars = Some(30);
    request.history = vec![
        ChatHistoryMessage {
            role: "user".into(),
            content: "门店".into(),
        },
        ChatHistoryMessage {
            role: "assistant".into(),
            content: "abc".into(),
        },
    ];
    let stats = SourceFilterStats {
        active: false,
        allowed_count: 0,
        candidate_count: 1,
        matched_count: 4,
    };
    let debug = build_retrieval_debug(&request, "wiki", &[], 0, Some(30), stats, None);
    assert_eq!(number(&debug, "requested_top_k"), 50);
    assert_eq!(number(&debug, "requested_max_context_size"), 1000);
    assert_eq!(number(&debug, "effective_max_context_size"), 1000);
    assert_eq!(number(&debug, "requested_max_block_chars"), 30);
    assert_eq!(number(&debug, "effective_max_block_chars"), 30);
    assert_eq!(number(&debug, "history_message_count"), 2);
    assert_eq!(number(&debug, "history_content_chars"), 5);
    assert_eq!(number(&debug, "source_filter_excluded_count"), 0);
    assert_eq!(text(&debug, "mode"), "server-only");
}

#[test]
fn debug_is_the_same_for_every_allowlist() {
    let stats = SourceFilterStats {
        active: true,
        allowed_count: 1,
        candidate_count: 2,
        matched_count: 1,
    };
    let debug = |path: &str| {
        let request = ChatContextRequest {
            include_debug: true,
            allowed_source_paths: Some(vec![path.to_string()]),
            ..request("q")
        };
        let roots = vec!["wiki".to_string()];
        format!(
            "{:?}",
            build_retrieval_debug(&request, "wiki", &roots, 1, None, stats, None)
        )
    };
    assert_eq!(debug("wiki/a.md"), debug("wiki/secret.md"));
}

#[test]
fn hybrid_sources_floor_keeps_raw_sources_hits() {
    let results = vec![
        sample_result("wiki/alpha.md", "Alpha", 100.0),
        sample_result("wiki/beta.md", "Beta", 90.0),
        sample_result("raw/sources/doc1.md", "Doc1", 50.0),
        sample_result("raw/sources/doc2.md", "Doc2", 40.0),
        sample_result("raw/sources/doc3.md", "Doc3", 30.0),
        sample_result("wiki/gamma.md", "Gamma", 20.0),
    ];

    let ordered = order_results_for_context(RetrievalMode::Hybrid, results);
    assert!(ordered.len() >= 3);
    assert!(is_raw_sources_path(&ordered[0].path));
    assert!(is_raw_sources_path(&ordered[1].path));
    assert_eq!(ordered[0].path, "raw/sources/doc1.md");
    assert_eq!(ordered[1].path, "raw/sources/doc2.md");
    assert_eq!(ordered[2].path, "wiki/alpha.md");
    assert_eq!(ordered[3].path, "wiki/beta.md");
    assert_eq!(ordered[4].path, "raw/sources/doc3.md");
    assert_eq!(ordered[5].path, "wiki/gamma.md");

    let wiki_only = order_results_for_context(
        RetrievalMode::Wiki,
        vec![
            sample_result("wiki/a.md", "A", 10.0),
            sample_result("raw/sources/s.md", "S", 99.0),
        ],
    );
    assert_eq!(wiki_only[0].path, "wiki/a.md");
    assert_eq!(wiki_only[1].path, "raw/sources/s.md");

    let sources_only = order_results_for_context(
        RetrievalMode::SourcesOnly,
        vec![
            sample_result("raw/sources/a.md", "A", 10.0),
            sample_result("raw/sources/b.md", "B", 5.0),
        ],
    );
    assert_eq!(sources_only[0].path, "raw/sources/a.md");
    assert_eq!(sources_only[1].path, "raw/sources/b.md");
}

#[test]
fn scores_are_ordered_by_value() {
    let results = vec![
        sample_result("raw/sources/x.md", "X", 1.0),
        sample_result("raw/sources/y.md", "Y", 1.0),
        sample_result("wiki/minus.md", "M", -1.5),
        sample_result("wiki/zero.md", "Z", 0.0),
        sample_result("wiki/b.md", "B", 2.5),
        sample_result("wiki/a.md", "A", 2.5),
        sample_result("wiki/below-zero.md", "N", -0.0),
        sample_result("wiki/lowest.md", "L", -7.0),
    ];
    let ordered = order_results_for_context(RetrievalMode::Hybrid, results);
    let paths: Vec<&str> = ordered.iter().map(|r| r.path.as_str()).collect();
    assert_eq!(
        paths,
        vec![
            "raw/sources/x.md",
            "raw/sources/y.md",
            "wiki/a.md",
            "wiki/b.md",
            "wiki/below-zero.md",
            "wiki/zero.md",
            "wiki/minus.md",
            "wiki/lowest.md",
        ]
    );
}

#[test]
fn scores_that_are_no_numbers_leave_it_to_the_paths() {
    let order = |hits: &[(&str, f64)]| {
        let mut results = vec![
            sample_result("raw/sources/x.md", "X", 1.0),
            sample_result("raw/sources/y.md", "Y", 1.0),
        ];
        results.extend(hits.iter().map(|(path, score)| sample_result(path, path, *score)));
        order_results_for_context(RetrievalMode::Hybrid, results)
            .split_off(2)
            .into_iter()
            .map(|hit| hit.path)
            .collect::<Vec<String>>()
    };
    assert_eq!(order(&[("b", f64::NAN), ("a", 1.0)]), vec!["a", "b"]);
    assert_eq!(order(&[("b", 1.0), ("a", f64::NAN)]), vec!["a", "b"]);
    assert_eq!(order(&[("b", 1.0), ("a", -f64::NAN)]), vec!["a", "b"]);
    assert_eq!(order(&[("b", f64::NAN), ("a", f64::NAN)]), vec!["a", "b"]);
    assert_eq!(
        order(&[("a", 1.0), ("b", f64::INFINITY), ("c", f64::NEG_INFINITY)]),
        vec!["b", "a", "c"]
    );
    assert_eq!(
        order(&[("a", 2.0), ("c", f64::NAN), ("b", 3.0), ("d", 1.0)]),
        vec!["b", "a", "c", "d"]
    );
}

#[test]
fn hybrid_without_sources_keeps_ranking() {
    let ordered = order_results_for_context(
        RetrievalMode::Hybrid,
        vec![
            sample_result("wiki/z.md", "Z", 1.0),
            sample_result("wiki/a.md", "A", 2.0),
        ],
    );
    assert_eq!(ordered[0].path, "wiki/z.md");
    assert_eq!(ordered[1].path, "wiki/a.md");
    assert!(order_results_for_context(RetrievalMode::Hybrid, vec![]).is_empty());
    assert!(is_raw_sources_path("C:\\p\\raw\\sources\\a.md"));
    assert!(!is_raw_sources_path("wiki/raw-sources.md"));
    assert!(!is_raw_sources_path("wiki/draw/sources.md"));
    assert!(!is_raw_sources_path("wiki/draw/sources/a.md"));
    assert!(is_raw_sources_path("raw/sources"));
    assert!(!is_raw_sources_path("raw"));
}

#[test]
fn hybrid_sources_floor_constant_is_two() {
    assert_eq!(HYBRID_SOURCES_FLOOR, 2);
}

#[test]
fn allowed_source_paths_normalize_separators_and_deduplicate() {
    let requested = vec![
        "raw\\sources\\门店资料.md".to_string(),
        "raw/sources/门店资料.md".to_string(),
    ];

    let normalized = normalize_allowed_source_paths(Some(&requested))
        .unwrap()
        .expect("an allowlist stays one");

    assert_eq!(normalized.len(), 1);
    assert!(normalized.contains("raw/sources/门店资料.md"));
}

#[test]
fn allowed_source_paths_become_exact_mode_compatible_scan_roots() {
    let requested = vec![
        "raw/sources/产品资料.md".to_string(),
        "raw/sources/服务说明.md".to_string(),
        "wiki/entities/产品.md".to_string(),
    ];
    let allowed = normalize_allowed_source_paths(Some(&requested))
        .unwrap()
        .unwrap();

    assert_eq!(
        resolve_chat_context_scan_roots(RetrievalMode::SourcesOnly, Some(&allowed)),
        vec!["raw/sources/产品资料.md", "raw/sources/服务说明.md"]
    );
    assert_eq!(
        resolve_chat_context_scan_roots(RetrievalMode::Wiki, Some(&allowed)),
        vec!["wiki/entities/产品.md"]
    );
    assert_eq!(
        resolve_chat_context_scan_roots(RetrievalMode::Hybrid, Some(&allowed)),
        vec![
            "raw/sources/产品资料.md",
            "raw/sources/服务说明.md",
            "wiki/entities/产品.md",
        ]
    );
    assert_eq!(
        resolve_chat_context_scan_roots(RetrievalMode::Wiki, None),
        vec!["wiki"]
    );
}

#[test]
fn scan_roots_go_by_directories_not_by_beginnings() {
    let allowed = TextSet::new()
        .with("wiki".to_string())
        .with("wikipedia/a.md".to_string())
        .with("wiki/a.md".to_string());
    assert_eq!(
        resolve_chat_context_scan_roots(RetrievalMode::Wiki, Some(&allowed)),
        vec!["wiki", "wiki/a.md"]
    );
}

#[test]
fn incompatible_allowed_paths_fail_closed_before_search() {
    let requested = vec!["raw/sources/仅原始资料.md".to_string()];
    let allowed = normalize_allowed_source_paths(Some(&requested))
        .unwrap()
        .unwrap();
    let roots = resolve_chat_context_scan_roots(RetrievalMode::Wiki, Some(&allowed));
    assert!(roots.is_empty());

    let request = ChatContextRequest {
        include_debug: true,
        retrieval_mode: Some("wiki".to_string()),
        allowed_source_paths: Some(requested),
        ..request("q")
    };
    let budget = compute_context_budget(None);
    let mode_roots = vec!["wiki".to_string()];
    let response_context = ChatContextResponseContext {
        project_id: "project-1",
        request: &request,
        budget: &budget,
        effective_max_block_chars: None,
        mode_label: "wiki",
        mode_scan_roots: &mode_roots,
    };
    let response = response_context.build(
        Vec::new(),
        Vec::new(),
        SourceFilterStats {
            active: true,
            allowed_count: 1,
            candidate_count: 0,
            matched_count: 0,
        },
        None,
    );

    assert_eq!(response.status, 200);
    assert_eq!(text(&response.body, "status"), "EMPTY_CONTEXT");
    assert!(items(at(&response.body, "context_blocks")).is_empty());
    assert!(items(at(&response.body, "references")).is_empty());
    let debug = at(&response.body, "retrieval_debug");
    assert!(flag(debug, "source_filter_active"));
    assert_eq!(number(debug, "source_filter_candidate_count"), 0);
    let roots = items(at(debug, "scan_roots"));
    assert_eq!(roots.len(), 1);
    assert_eq!(roots[0].as_text(), Some("wiki"));
    assert!(!format!("{:?}", response.body).contains("仅原始资料.md"));
}

#[test]
fn plan_answers_incompatible_allowlist_without_search() {
    let request = ChatContextRequest {
        retrieval_mode: Some("wiki".to_string()),
        ..request("q")
    };
    let scope = ValidatedSourceFileScope {
        project_root: "/srv/wiki".to_string(),
        allowed_paths: Some(TextSet::new().with("raw/sources/only.md".to_string())),
    };
    match plan_chat_context("project-1", request, Ok(scope)) {
        ChatPlan::Respond(response) => {
            assert_eq!(response.status, 200);
            assert_eq!(text(&response.body, "status"), "EMPTY_CONTEXT");
            let debug = at(&response.body, "retrieval_debug");
            assert_eq!(number(debug, "source_filter_allowed_count"), 1);
        }
        _ => panic!("nothing may be searched"),
    }
}

#[test]
fn allowed_source_paths_reject_empty_absolute_traversal_and_control_values() {
    let invalid_cases = vec![
        Vec::<String>::new(),
        vec!["".to_string()],
        vec!["   ".to_string()],
        vec!["/private/secret.md".to_string()],
        vec!["C:\\private\\secret.md".to_string()],
        vec!["raw/./sources.md".to_string()],
        vec!["raw/../secret.md".to_string()],
        vec!["raw//sources.md".to_string()],
        vec!["raw/sources/secret\0.md".to_string()],
    ];

    for invalid in invalid_cases {
        assert!(
            normalize_allowed_source_paths(Some(&invalid)).is_err(),
            "{invalid:?}"
        );
    }

    let too_many = (0..=MAX_ALLOWED_SOURCE_PATHS)
        .map(|index| format!("raw/sources/{index}.md"))
        .collect::<Vec<_>>();
    assert!(normalize_allowed_source_paths(Some(&too_many)).is_err());

    let too_long = vec![format!(
        "raw/sources/{}.md",
        "长".repeat(MAX_ALLOWED_SOURCE_PATH_CHARS)
    )];
    assert!(normalize_allowed_source_paths(Some(&too_long)).is_err());
}

#[test]
fn refused_source_paths_say_why() {
    let refusal = |raw: &str| normalize_project_relative_source_path(raw).unwrap_err();
    assert_eq!(refusal(" \t"), "allowed source path must not be empty");
    assert_eq!(
        refusal(&"a".repeat(1025)),
        "allowed source path is too long"
    );
    assert_eq!(
        refusal("a\nb"),
        "allowed source path contains control characters"
    );
    assert_eq!(
        refusal("\\a"),
        "allowed source path must be project-relative"
    );
    assert_eq!(
        refusal("c:a"),
        "allowed source path must not contain a drive prefix"
    );
    assert_eq!(
        refusal("a//b"),
        "allowed source path contains an empty component"
    );
    assert_eq!(
        refusal("a/.."),
        "allowed source path contains traversal components"
    );
    assert_eq!(
        normalize_project_relative_source_path("a\\b c.md"),
        Ok("a/b c.md".to_string())
    );
    assert_eq!(
        normalize_project_relative_source_path("a/b c.md"),
        Ok("a/b c.md".to_string())
    );
    assert_eq!(
        normalize_project_relative_source_path(&"a".repeat(1024)),
        Ok("a".repeat(1024))
    );
    assert_eq!(
        normalize_allowed_source_paths(Some(&[])).err(),
        Some("allowed_source_paths must not be empty when provided")
    );
    let many: Vec<String> = (0..257).map(|i| format!("{i}")).collect();
    assert_eq!(
        normalize_allowed_source_paths(Some(&many)).err(),
        Some("allowed_source_paths contains too many entries")
    );
    assert!(normalize_allowed_source_paths(Some(&many[..256])).is_ok());
    assert!(normalize_allowed_source_paths(None).unwrap().is_none());
}

#[test]
fn allowed_source_paths_filter_candidates_by_exact_normalized_path() {
    let requested = vec!["raw\\sources\\allowed.md".to_string()];
    let allowed = normalize_allowed_source_paths(Some(&requested))
        .unwrap()
        .unwrap();
    let mut allowed_result = sample_result("raw/sources/allowed.md", "允许来源", 0.9);
    allowed_result.vector_score = Some(0.95f64.to_bits());
    allowed_result.graph_score = Some(0.85f64.to_bits());
    allowed_result.rrf_score = Some(0.75f64.to_bits());
    let mut unauthorized_hybrid = sample_result("raw/sources/blocked.md", "未授权混合候选", 99.0);
    unauthorized_hybrid.vector_score = Some(1.0f64.to_bits());
    unauthorized_hybrid.graph_score = Some(1.0f64.to_bits());
    unauthorized_hybrid.rrf_score = Some(1.0f64.to_bits());
    let results = vec![
        allowed_result,
        sample_result("raw/sources/allowed.md.backup", "相似后缀", 0.8),
        sample_result("raw/sources/sub/allowed.md", "相似文件名", 0.7),
        sample_result("wiki/allowed.md", "不同目录", 0.6),
        unauthorized_hybrid,
    ];

    let (filtered, stats) = filter_results_by_allowed_source_paths(results, Some(&allowed));

    assert_eq!(filtered.len(), 1);
    assert_eq!(filtered[0].path, "raw/sources/allowed.md");
    assert_eq!(filtered[0].vector_score, Some(0.95f64.to_bits()));
    assert_eq!(filtered[0].graph_score, Some(0.85f64.to_bits()));
    assert_eq!(filtered[0].rrf_score, Some(0.75f64.to_bits()));
    assert_eq!(stats.allowed_count, 1);
    assert_eq!(stats.candidate_count, 5);
    assert_eq!(stats.matched_count, 1);
}

#[test]
fn unmatched_allowed_source_paths_return_empty_context_without_global_fallback() {
    let requested = vec!["raw/sources/not-found.md".to_string()];
    let allowed = normalize_allowed_source_paths(Some(&requested))
        .unwrap()
        .unwrap();
    let results = vec![sample_result(
        "raw/sources/other.md",
        "全库中存在但未授权的来源",
        0.9,
    )];

    let (filtered, stats) = filter_results_by_allowed_source_paths(results, Some(&allowed));
    let budget = compute_context_budget(None);
    let (blocks, references) = assemble_context_blocks(filtered, &budget, None);

    assert!(stats.active);
    assert_eq!(stats.matched_count, 0);
    assert!(blocks.is_empty());
    assert!(references.is_empty());
}

#[test]
fn chat_context_request_new_limits_are_optional_and_default_compatible() {
    let request = request("门店在哪里");

    assert_eq!(request.query_embedding, None);
    assert_eq!(request.top_k, None);
    assert_eq!(request.max_block_chars, None);
    assert_eq!(request.allowed_source_paths, None);
    assert_eq!(DEFAULT_TOP_K, 10);
    assert_eq!(requested_hits(request.top_k), 10);

    let results = vec![
        sample_result("wiki/a.md", "A", 0.9),
        sample_result("raw/sources/b.md", "B", 0.8),
    ];
    let allowed = normalize_allowed_source_paths(request.allowed_source_paths.as_deref())
        .expect("no allowlist is no fault");
    let (unfiltered, stats) = filter_results_by_allowed_source_paths(results, allowed.as_ref());
    assert_eq!(unfiltered.len(), 2);
    assert!(!stats.active);
    assert_eq!(stats.matched_count, 2);
}

#[test]
fn extreme_context_budget_is_clamped_without_overflow_or_unbounded_allocation() {
    let mut request = request("门店在哪里");
    request.max_context_size = Some(usize::MAX);
    request.max_block_chars = Some(usize::MAX);
    let budget = compute_context_budget(request.max_context_size);
    let block_cap = compute_effective_max_block_chars(request.max_block_chars, &budget);

    assert_eq!(budget.max_ctx, MAX_CHAT_CONTEXT_SIZE);
    assert!(budget.response_reserve <= MAX_CHAT_CONTEXT_SIZE);
    assert!(budget.index_budget <= MAX_CHAT_CONTEXT_SIZE);
    assert!(budget.page_budget <= MAX_CHAT_CONTEXT_SIZE);
    assert!(budget.max_page_size <= budget.page_budget);
    assert_eq!(block_cap, Some(budget.page_budget));

    let result = sample_result("wiki/sources/stores.md", "门店清单", 0.8);
    let (blocks, references) = assemble_context_blocks(vec![result], &budget, block_cap);
    assert_eq!(blocks.len(), 1);
    assert_eq!(references.len(), 1);
    assert!(text(&blocks[0], "content").chars().count() <= budget.page_budget);
}

#[test]
fn budget_is_divided() {
    let budget = compute_context_budget(None);
    assert_eq!(
        budget,
        ContextBudget {
            max_ctx: 204_800,
            response_reserve: 30_720,
            index_budget: 10_240,
            page_budget: 102_400,
            max_page_size: 30_720,
        }
    );
    assert_eq!(compute_context_budget(Some(0)), budget);
    let small = compute_context_budget(Some(1000));
    assert_eq!(small.page_budget, 500);
    assert_eq!(small.max_page_size, 500);
    let middle = compute_context_budget(Some(20_000));
    assert_eq!(middle.page_budget, 10_000);
    assert_eq!(middle.max_page_size, 5_000);
    assert_eq!(compute_effective_max_block_chars(None, &small), None);
    assert_eq!(compute_effective_max_block_chars(Some(7), &small), Some(7));
}

#[test]
fn explicit_per_block_cap_keeps_later_precise_source_and_native_scores() {
    let budget = ContextBudget {
        max_ctx: 500,
        response_reserve: 75,
        index_budget: 25,
        page_budget: 240,
        max_page_size: 50,
    };
    let mut broad = sample_result("wiki/entities/product.md", "产品总览", 0.9);
    broad.content = Some("宽泛产品内容".repeat(30));
    broad.graph_score = Some(0.4f64.to_bits());
    broad.rrf_score = Some(0.9f64.to_bits());
    broad.graph_related_to = vec!["产品".to_string()];
    let mut distractors = (2..=5)
        .map(|index| {
            let mut result = sample_result(
                &format!("wiki/concepts/noise-{index}.md"),
                &format!("干扰候选{index}"),
                0.9 - index as f64 / 100.0,
            );
            result.content = Some("与当前问题相关度较低的维护内容".repeat(10));
            result
        })
        .collect::<Vec<_>>();
    let mut precise = sample_result("wiki/sources/stores.md", "门店清单", 0.8);
    precise.content = Some("北京、上海、广州、成都四家门店完整地址".to_string());
    let mut ordered = vec![broad];
    ordered.append(&mut distractors);
    ordered.push(precise);

    let (blocks, references) = assemble_context_blocks(ordered, &budget, Some(20));

    assert_eq!(blocks.len(), 6);
    assert_eq!(text(&blocks[0], "content").chars().count(), 20);
    assert_eq!(text(&blocks[0], "path"), "wiki/entities/product.md");
    assert_eq!(float(&blocks[0], "score"), 0.9);
    assert_eq!(float(&blocks[0], "graphScore"), 0.4);
    assert_eq!(float(&blocks[0], "rrfScore"), 0.9);
    assert_eq!(
        items(at(&blocks[0], "graphRelatedTo"))[0].as_text(),
        Some("产品")
    );
    assert_eq!(text(&blocks[5], "path"), "wiki/sources/stores.md");
    assert_eq!(float(&blocks[5], "score"), 0.8);
    assert_eq!(text(&references[5], "path"), "wiki/sources/stores.md");
    assert_eq!(float(&references[5], "score"), 0.8);
    assert!(references[5].get("content").is_none());
    for (i, block) in blocks.iter().enumerate() {
        assert_eq!(number(block, "id"), i as u64 + 1);
    }
}

#[test]
fn missing_per_block_cap_preserves_legacy_first_oversized_page_behavior() {
    let budget = ContextBudget {
        max_ctx: 40,
        response_reserve: 6,
        index_budget: 2,
        page_budget: 20,
        max_page_size: 10,
    };
    let mut broad = sample_result("wiki/entities/product.md", "产品总览", 0.9);
    broad.content = Some("超长内容".repeat(20));
    let precise = sample_result("wiki/sources/stores.md", "门店清单", 0.8);

    let (blocks, references) = assemble_context_blocks(vec![broad, precise], &budget, None);

    assert_eq!(blocks.len(), 1);
    assert_eq!(references.len(), 1);
    assert_eq!(text(&blocks[0], "path"), "wiki/entities/product.md");
    assert_eq!(text(&blocks[0], "content").chars().count(), 10);
    assert_eq!(text(&blocks[0], "content"), "[1] 产品总览\n超");
}

#[test]
fn whole_pages_are_packed_until_one_does_not_fit() {
    let budget = ContextBudget {
        max_ctx: 100,
        response_reserve: 15,
        index_budget: 5,
        page_budget: 20,
        max_page_size: 20,
    };
    let page = |path: &str, content: Option<&str>| {
        let mut result = sample_result(path, "T", 1.0);
        result.content = content.map(str::to_string);
        result
    };
    let (blocks, _) = assemble_context_blocks(
        vec![
            page("a", Some("1234")),
            page("b", None),
            page("c", Some("12345")),
            page("d", Some("")),
        ],
        &budget,
        None,
    );
    assert_eq!(blocks.len(), 2);
    assert_eq!(text(&blocks[0], "content"), "1234");
    assert_eq!(text(&blocks[1], "content"), "");
    let (blocks, _) = assemble_context_blocks(
        vec![page("a", Some("1234567890")), page("b", Some("x"))],
        &budget,
        Some(9),
    );
    assert_eq!(blocks.len(), 1);
    assert_eq!(text(&blocks[0], "content"), "123456789");
}

#[test]
fn retrieval_failure_uses_non_2xx_stable_envelope_without_internal_details() {
    let raw_error = "/private/workspace/secret.md: permission denied; provider body=sk-secret";
    let safe_log = safe_retrieval_log_line(raw_error);
    let response = retrieval_failed_response(raw_error);

    assert_eq!(response.status, 502);
    assert!(!flag(&response.body, "ok"));
    let error = at(&response.body, "error");
    assert_eq!(text(error, "code"), "RETRIEVAL_FAILED");
    assert_eq!(text(error, "message"), "Knowledge retrieval failed");
    let shown = format!("{:?}", response.body);
    assert!(!shown.contains("secret.md"));
    assert!(!shown.contains("permission denied"));
    assert_eq!(
        safe_log,
        "[OmniMind Server] chat-context retrieval failed code=RETRIEVAL_FAILED category=provider_or_embedding"
    );
    for forbidden in [
        "/private/workspace",
        "secret.md",
        "permission denied",
        "provider body",
        "sk-secret",
    ] {
        assert!(!safe_log.contains(forbidden), "{forbidden}");
    }
}

#[test]
fn log_lines_tell_the_kind_of_error() {
    let line = |category: &str| {
        format!(
            "[OmniMind Server] chat-context retrieval failed code=RETRIEVAL_FAILED category={category}"
        )
    };
    assert_eq!(
        safe_retrieval_log_line("LanceDB is gone"),
        line("vector_store")
    );
    assert_eq!(
        safe_retrieval_log_line("EMBEDDING lance"),
        line("provider_or_embedding")
    );
    assert_eq!(safe_retrieval_log_line("Permission"), line("project_io"));
    assert_eq!(safe_retrieval_log_line(""), line("internal"));
    let late = format!("{}provider", "x".repeat(4096));
    assert_eq!(safe_retrieval_log_line(&late), line("internal"));
    let cut = format!("{}provider", "x".repeat(4088));
    assert_eq!(safe_retrieval_log_line(&cut), line("provider_or_embedding"));
}

#[test]
fn chat_context_refuses_what_it_cannot_serve() {
    let code = |r: Result<omnimind_server::chat::ChatCheck, omnimind_server::response::OmnimindResponse>| {
        let answer = r.err().unwrap();
        let code = text(at(&answer.body, "error"), "code").to_string();
        (answer.status, code)
    };
    assert_eq!(
        code(handle_chat_context(
            Err("Unknown project: x".to_string()),
            Err("eof".to_string())
        )),
        (404, "PROJECT_NOT_FOUND".to_string())
    );
    let bad = handle_chat_context(Ok(project()), Err("eof".to_string()));
    assert_eq!(code(bad), (400, "INVALID_JSON".to_string()));
    assert_eq!(
        code(handle_chat_context(Ok(project()), Ok(request(" \n")))),
        (400, "INVALID_QUERY".to_string())
    );
    let zero = ChatContextRequest {
        max_block_chars: Some(0),
        ..request("q")
    };
    assert_eq!(
        code(handle_chat_context(Ok(project()), Ok(zero))),
        (400, "INVALID_MAX_BLOCK_CHARS".to_string())
    );
    let outside = ChatContextRequest {
        allowed_source_paths: Some(vec!["../a".to_string()]),
        ..request("q")
    };
    assert_eq!(
        code(handle_chat_context(Ok(project()), Ok(outside))),
        (400, "INVALID_ALLOWED_SOURCE_PATHS".to_string())
    );
}

#[test]
fn chat_context_answers_from_the_allowlist_alone() {
    let asked = ChatContextRequest {
        retrieval_mode: Some("hybrid".to_string()),
        top_k: Some(3),
        ..request("q")
    };
    let check = handle_chat_context(Ok(project()), Ok(asked)).ok().unwrap();
    let scope = match check.step {
        ScopeStep::Done(Ok(scope)) => scope,
        _ => panic!("nothing to check without an allowlist"),
    };
    assert_eq!(scope.project_root, "/srv/wiki");
    let scope = ValidatedSourceFileScope {
        project_root: scope.project_root,
        allowed_paths: Some(TextSet::new().with("wiki/a.md".to_string())),
    };
    let search = match plan_chat_context("project-1", check.request, Ok(scope)) {
        ChatPlan::Embed(search) => search,
        _ => panic!("the wiki is searched with a vector"),
    };
    assert!(search.is_scoped());
    assert_eq!(search.top_k, 3);
    assert_eq!(search.scan_roots, vec!["wiki/a.md"]);
    let answer = ProjectSearchResponse {
        mode: "hybrid".to_string(),
        requested_mode: SearchMode::Hybrid,
        executed_mode: SearchMode::Bm25,
        results: vec![
            sample_result("wiki/b.md", "B", 9.0),
            sample_result("wiki\\a.md", "A", 1.0),
        ],
        token_hits: 2,
        vector_hits: 0,
        graph_hits: 0,
    };
    let response = search.respond_to("project-1", Ok(answer));
    assert_eq!(response.status, 200);
    assert_eq!(text(&response.body, "status"), "SUCCESS");
    assert_eq!(text(&response.body, "project_id"), "project-1");
    let blocks = items(at(&response.body, "context_blocks"));
    assert_eq!(blocks.len(), 1);
    assert_eq!(text(&blocks[0], "path"), "wiki\\a.md");
    assert_eq!(items(at(&response.body, "references")).len(), 1);
    let debug = at(&response.body, "retrieval_debug");
    assert_eq!(number(debug, "source_filter_matched_count"), 1);
    assert_eq!(number(at(&response.body, "budget"), "page_budget"), 102_400);
}

#[test]
fn sources_are_searched_without_a_vector_and_failures_are_not_told() {
    let asked = ChatContextRequest {
        retrieval_mode: Some("sources".to_string()),
        ..request("q")
    };
    let scope = ValidatedSourceFileScope {
        project_root: "/srv/wiki".to_string(),
        allowed_paths: None,
    };
    let search = match plan_chat_context("p", asked, Ok(scope)) {
        ChatPlan::Search(search) => search,
        _ => panic!("raw sources have no vectors"),
    };
    assert!(!search.is_scoped());
    assert_eq!(search.top_k, 10);
    assert_eq!(search.scan_roots, vec!["raw/sources"]);
    let response = search.respond_to("p", Err("/secret".to_string()));
    assert_eq!(response.status, 502);
    assert!(!format!("{:?}", response.body).contains("/secret"));

    match plan_chat_context("p", request("q"), Err("no")) {
        ChatPlan::Respond(response) => {
            assert_eq!(response.status, 400);
            let error = at(&response.body, "error");
            assert_eq!(text(error, "code"), "INVALID_ALLOWED_SOURCE_PATHS");
            assert_eq!(text(error, "message"), "no");
        }
        _ => panic!("a refused allowlist ends the request"),
    }
}

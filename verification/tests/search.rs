use omnimind_server::json::Json;
use omnimind_server::projects::ProjectEntry;
use omnimind_server::search::{
    embedding_refused, handle_search, requested_hits, search_response, search_response_body,
    ProjectSearchResponse, ProjectSearchResult, SearchMode, SearchRequest,
};

fn sample_result(path: &str, title: &str, score: f64) -> ProjectSearchResult {
    ProjectSearchResult {
        path: path.to_string(),
        title: title.to_string(),
        snippet: String::new(),
        title_match: false,
        score: score.to_bits(),
        bm25_score: Some(score.to_bits()),
        vector_score: None,
        graph_score: None,
        rrf_score: None,
        images: vec![],
        content: Some(format!("content for {title}")),
        graph_related_to: vec![],
    }
}

fn sample_search() -> ProjectSearchResponse {
    ProjectSearchResponse {
        mode: "bm25".to_string(),
        requested_mode: SearchMode::Bm25,
        executed_mode: SearchMode::Bm25,
        results: vec![sample_result("wiki/result.md", "Result", 7.0)],
        token_hits: 1,
        vector_hits: 0,
        graph_hits: 0,
    }
}

fn request(query: &str) -> SearchRequest {
    SearchRequest {
        query: query.to_string(),
        mode: SearchMode::Vector,
        top_k: None,
        include_content: None,
        query_embedding: Some(vec![0.25f32.to_bits()]),
    }
}

fn project() -> ProjectEntry {
    ProjectEntry {
        id: "p1".to_string(),
        name: "P".to_string(),
        path: "/p".to_string(),
        current: false,
    }
}

fn first_result(body: &Json) -> &Json {
    match body.get("results").unwrap() {
        Json::Array(items) => &items[0],
        other => panic!("no array: {other:?}"),
    }
}

#[test]
fn search_request_accepts_only_the_four_operator_modes() {
    for mode in ["bm25", "vector", "graph", "hybrid"] {
        let body = format!(r#"{{"query":"alpha","mode":"{mode}"}}"#);
        let parsed: serde_json::Value = serde_json::from_str(&body).unwrap();
        assert!(SearchMode::named(parsed["mode"].as_str().unwrap()).is_some());
    }
    let parsed: serde_json::Value =
        serde_json::from_str(r#"{"query":"alpha","mode":"semantic"}"#).unwrap();
    assert!(SearchMode::named(parsed["mode"].as_str().unwrap()).is_none());
}

#[test]
fn mode_names_lead_back_to_modes() {
    for mode in [
        SearchMode::Bm25,
        SearchMode::Vector,
        SearchMode::Graph,
        SearchMode::Hybrid,
    ] {
        assert_eq!(SearchMode::named(mode.name()), Some(mode));
    }
    assert_eq!(SearchMode::named("BM25"), None);
    assert_eq!(SearchMode::default(), SearchMode::Hybrid);
}

#[test]
fn search_response_body_uses_camel_case_mode_and_nullable_scores() {
    let body = search_response_body("project-1", sample_search());

    assert_eq!(body.text_field("requestedMode"), Some("bm25"));
    assert_eq!(body.text_field("executedMode"), Some("bm25"));
    let first = first_result(&body);
    assert!(matches!(
        first.get("bm25Score"),
        Some(Json::Float(bits)) if f64::from_bits(*bits) == 7.0
    ));
    assert!(matches!(first.get("vectorScore"), Some(Json::Null)));
    assert!(matches!(first.get("graphScore"), Some(Json::Null)));
    assert!(matches!(first.get("rrfScore"), Some(Json::Null)));
    assert_eq!(first.text_field("content"), Some("content for Result"));
    assert_eq!(body.text_field("projectId"), Some("project-1"));
    assert!(matches!(body.get("tokenHits"), Some(Json::UInt(1))));
}

#[test]
fn searches_are_prepared() {
    let plan = handle_search(Ok(project()), Ok(request("what"))).ok().unwrap();
    assert_eq!(plan.query, "what");
    assert_eq!(plan.mode, SearchMode::Vector);
    assert_eq!(plan.top_k, 10);
    assert!(!plan.include_content);
    assert_eq!(plan.query_embedding, Some(vec![0.25f32.to_bits()]));
    assert_eq!(plan.project.id, "p1");
    assert_eq!(requested_hits(Some(0)), 1);
    assert_eq!(requested_hits(Some(50)), 50);
    assert_eq!(requested_hits(Some(51)), 50);
}

#[test]
fn searches_are_refused() {
    let code = |r: Result<omnimind_server::search::SearchPlan, omnimind_server::response::OmnimindResponse>| {
        let answer = r.err().unwrap();
        let code = answer.body.get("error").unwrap().text_field("code");
        (answer.status, code.unwrap().to_string())
    };
    assert_eq!(
        code(handle_search(Err("no".to_string()), Ok(request("q")))),
        (404, "PROJECT_NOT_FOUND".to_string())
    );
    assert_eq!(
        code(handle_search(Ok(project()), Err("eof".to_string()))),
        (400, "INVALID_JSON".to_string())
    );
    assert_eq!(
        code(handle_search(Ok(project()), Ok(request("\u{3000} ")))),
        (400, "QUERY_REQUIRED".to_string())
    );
    let refused = embedding_refused("no provider");
    assert_eq!(refused.status, 400);
    let failed = search_response("p1", Err("broken".to_string()));
    assert_eq!(failed.status, 500);
    assert_eq!(
        failed.body.get("error").unwrap().text_field("message"),
        Some("broken")
    );
    assert_eq!(search_response("p1", Ok(sample_search())).status, 200);
}

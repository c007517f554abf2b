use omnimind_server::images::{handle_extract_images, DocumentKind, ExtractImagesRequest};
use omnimind_server::files::{known_project, PathKind};
use omnimind_server::json::Json;
use omnimind_server::projects::{resolve_project, ProjectEntry};
use omnimind_server::response::{cors_headers, sends_body, OmnimindResponse};
use omnimind_server::route::{fixed_response, handle_request, Endpoint, HttpMethod};
use omnimind_server::startup::{
    bind_address, get_app_data_dir, should_start_from_args, state_file, DataDirStep, Platform,
};
use omnimind_server::upload::{
    default_workspace, fallback_home, get_multipart_boundary, no_form_response, try_upload_target,
    upload_target, workspace_path, FileOutcome, Upload,
};
use omnimind_server::vectors::{
    body_then_project, handle_update_embeddings, handle_vector_clear_chunks,
    handle_vector_delete_page, handle_vector_index_status, handle_vector_optimize_chunks,
    handle_vector_replace_all_chunks, handle_vector_upsert_chunks, index_response,
    project_then_body, status_response, IndexPlan, IndexWork,
};

fn project(id: &str, path: &str, current: bool) -> ProjectEntry {
    ProjectEntry {
        id: id.to_string(),
        name: id.to_string(),
        path: path.to_string(),
        current,
    }
}

fn code(answer: &OmnimindResponse) -> (u16, &str) {
    let code = answer.body.get("error").unwrap().text_field("code");
    (answer.status, code.unwrap())
}

fn message(answer: &OmnimindResponse) -> &str {
    answer
        .body
        .get("error")
        .unwrap()
        .text_field("message")
        .unwrap()
}

fn headers(list: &[(&str, &str)]) -> Vec<(String, String)> {
    list.iter()
        .map(|(name, value)| (name.to_string(), value.to_string()))
        .collect()
}

#[test]
fn vector_index_management_routes_fail_closed_for_unknown_project() {
    let missing = || resolve_project("definitely-missing-project", vec![], Platform::Other);
    for response in [
        handle_vector_index_status(missing()).err().unwrap(),
        handle_vector_clear_chunks(missing()).err().unwrap(),
        handle_vector_optimize_chunks(missing()).err().unwrap(),
        handle_vector_replace_all_chunks(Ok(Vec::<u8>::new()), missing())
            .err()
            .unwrap(),
    ] {
        assert_eq!(response.status, 404);
        assert_eq!(code(&response).1, "PROJECT_NOT_FOUND");
    }
}

#[test]
fn vector_work_is_planned_for_known_projects() {
    let known = || Ok(project("p", "/p", true));
    let work = |plan: Result<IndexPlan, OmnimindResponse>| {
        let plan = plan.ok().unwrap();
        (plan.work, plan.project.path)
    };
    let path = "/p".to_string();
    assert_eq!(
        work(handle_vector_index_status(known())),
        (IndexWork::Status, path.clone())
    );
    assert_eq!(
        work(handle_vector_clear_chunks(known())),
        (IndexWork::Clear, path.clone())
    );
    assert_eq!(
        work(handle_vector_optimize_chunks(known())),
        (IndexWork::Optimize, path)
    );
    assert_eq!(known_project(known()).ok().unwrap().id, "p");
    let unknown = known_project(Err("Unknown project: x".to_string()));
    assert_eq!(code(&unknown.err().unwrap()), (404, "PROJECT_NOT_FOUND"));
}

#[test]
fn vector_work_is_answered() {
    assert_eq!(
        handle_vector_upsert_chunks(Ok(())).body.text_field("message"),
        Some("Vector chunks successfully upserted")
    );
    assert_eq!(
        message(&handle_vector_upsert_chunks(Err("bad".to_string()))),
        "bad"
    );
    assert_eq!(
        handle_vector_delete_page(Ok(())).body.text_field("message"),
        Some("Page vectors successfully deleted")
    );
    assert_eq!(
        code(&handle_vector_delete_page(Err("bad".to_string()))),
        (500, "VECTOR_DELETE_FAILED")
    );
    assert_eq!(handle_update_embeddings(Ok(())).status, 200);
    assert_eq!(
        code(&handle_update_embeddings(Err("bad".to_string()))),
        (500, "RESCAN_FAILED")
    );
    let status = status_response("p", Ok(12));
    assert!(matches!(status.body.get("chunk_count"), Some(Json::UInt(12))));
    let done = index_response("p", IndexWork::Clear, Ok(()));
    assert_eq!(done.body.text_field("project_id"), Some("p"));
}

#[test]
fn index_errors_stay_inside() {
    for (work, expected) in [
        (IndexWork::Replace, "VECTOR_INDEX_REPLACE_FAILED"),
        (IndexWork::Status, "VECTOR_INDEX_STATUS_FAILED"),
        (IndexWork::Clear, "VECTOR_INDEX_CLEAR_FAILED"),
        (IndexWork::Optimize, "VECTOR_INDEX_OPTIMIZE_FAILED"),
    ] {
        let failed = index_response("p", work, Err("/secret".to_string()));
        assert_eq!(code(&failed), (500, expected));
        assert!(!format!("{:?}", failed.body).contains("/secret"));
    }
    let failed = status_response("p", Err("/secret".to_string()));
    assert!(!format!("{:?}", failed.body).contains("/secret"));
    let refused = handle_vector_replace_all_chunks::<u8>(
        Err("/secret".to_string()),
        Ok(project("p", "/p", true)),
    );
    assert_eq!(
        code(&refused.err().unwrap()),
        (400, "INVALID_VECTOR_REPLACE")
    );
}

#[test]
fn bodies_and_projects_are_asked_for_in_order() {
    let no_body = || Err::<u8, String>("eof".to_string());
    let no_project = || Err("none".to_string());
    assert_eq!(
        code(&body_then_project(no_body(), no_project()).err().unwrap()),
        (400, "INVALID_JSON")
    );
    assert_eq!(
        code(&body_then_project(Ok(1u8), no_project()).err().unwrap()),
        (404, "PROJECT_NOT_FOUND")
    );
    assert_eq!(
        code(&project_then_body(no_project(), no_body()).err().unwrap()),
        (404, "PROJECT_NOT_FOUND")
    );
    let (found, body) = project_then_body(Ok(project("p", "/p", true)), Ok(7u8))
        .ok()
        .unwrap();
    assert_eq!((found.id.as_str(), body), ("p", 7));
}

#[test]
fn requests_reach_their_endpoints() {
    let route = |method: HttpMethod, url: &str| {
        let route = handle_request(method, url);
        (route.endpoint, route.project, route.query)
    };
    let plain = |endpoint: Endpoint| (endpoint, String::new(), String::new());
    assert_eq!(
        route(HttpMethod::Get, "/api/v1/health"),
        plain(Endpoint::Health)
    );
    assert_eq!(
        route(HttpMethod::Get, "/api/v1/projects"),
        plain(Endpoint::Projects)
    );
    assert_eq!(
        route(HttpMethod::Get, "//api/v1/projects//a%20b/files?root=all"),
        (
            Endpoint::Files,
            "a%20b".to_string(),
            "root=all".to_string()
        )
    );
    assert_eq!(
        route(HttpMethod::Post, "/api/v1/projects/p/chat-context"),
        (Endpoint::ChatContext, "p".to_string(), String::new())
    );
    assert_eq!(
        route(HttpMethod::Post, "/api/v1/document/upload?projectId=x"),
        (Endpoint::Upload, String::new(), "projectId=x".to_string())
    );
    assert_eq!(
        route(HttpMethod::Post, "/api/v1/projects/default/chat").0,
        Endpoint::Chat
    );
    assert_eq!(
        route(HttpMethod::Post, "/api/v1/projects/default/stream-chat").0,
        Endpoint::Chat
    );
    assert_eq!(
        route(HttpMethod::Post, "/api/v1/workspace/p/update-embeddings"),
        (Endpoint::UpdateEmbeddings, "p".to_string(), String::new())
    );
    assert_eq!(
        route(HttpMethod::Delete, "/api/v1/files/delete?x"),
        (Endpoint::DeleteFile, String::new(), "x".to_string())
    );
    assert_eq!(
        route(HttpMethod::Get, "/api/v1/files/delete").0,
        Endpoint::NotFound
    );
    assert_eq!(
        route(HttpMethod::Get, "/api/v1/health/").0,
        Endpoint::NotFound
    );
    assert_eq!(
        route(HttpMethod::Options, "/anything").0,
        Endpoint::Preflight
    );
    assert_eq!(
        route(HttpMethod::Other, "/health").0,
        Endpoint::MethodNotAllowed
    );
}

#[test]
fn fixed_endpoints_answer() {
    let health = fixed_response(Endpoint::Health, "1.2.3").unwrap();
    assert_eq!(health.status, 200);
    assert_eq!(
        health.body.text_field("service"),
        Some("OmniMind-Wiki-Core")
    );
    assert_eq!(health.body.text_field("version"), Some("1.2.3"));
    let chat = fixed_response(Endpoint::Chat, "").unwrap();
    assert_eq!(code(&chat), (501, "CHAT_NOT_IMPLEMENTED"));
    assert!(matches!(chat.body.get("ok"), Some(Json::Bool(false))));
    let preflight = fixed_response(Endpoint::Preflight, "").unwrap();
    assert_eq!(preflight.status, 204);
    assert!(!sends_body(&preflight));
    let missing = fixed_response(Endpoint::NotFound, "").unwrap();
    assert_eq!(code(&missing), (404, "NOT_FOUND"));
    assert!(sends_body(&missing));
    let refused = fixed_response(Endpoint::MethodNotAllowed, "").unwrap();
    assert_eq!(code(&refused), (405, "METHOD_NOT_ALLOWED"));
    assert!(fixed_response(Endpoint::Search, "").is_none());
    let headers = cors_headers();
    assert_eq!(headers.len(), 4);
    assert_eq!(headers[0].1, "*");
}

#[test]
fn service_starts_on_demand() {
    let args = |list: &[&str]| {
        let list: Vec<String> = list.iter().map(|a| a.to_string()).collect();
        should_start_from_args(&list)
    };
    assert!(args(&["llm-wiki", "--server-only"]));
    assert!(!args(&["llm-wiki", "--server-only=1"]));
    assert!(!args(&[]));
    assert_eq!(bind_address(None), "127.0.0.1:19829");
    assert_eq!(bind_address(Some("  ")), "127.0.0.1:19829");
    assert_eq!(bind_address(Some("0.0.0.0:1")), "0.0.0.0:1");
}

/// The directory of the application data where only the given ones exist.
fn data_dir(there: &[&str], mut step: DataDirStep) -> Option<String> {
    loop {
        step = match step {
            DataDirStep::Exists(question) => {
                let present = there.contains(&question.path.as_str());
                question.answer(present)
            }
            DataDirStep::Done(found) => return found,
        };
    }
}

#[test]
fn application_data_lies_where_it_is_customary() {
    let home = || Some("/home/u".to_string());
    let profile = || Some("/u".to_string());
    let data = || Some("C:\\d".to_string());
    let linux = "/home/u/.local/share/com.llmwiki.app";
    assert_eq!(
        data_dir(
            &[linux],
            get_app_data_dir(None, Platform::Other, home(), profile(), None)
        ),
        Some(linux.to_string())
    );
    let mac = "/u/Library/Application Support/com.llmwiki.app";
    assert_eq!(
        data_dir(
            &[mac],
            get_app_data_dir(None, Platform::MacOs, None, profile(), None)
        ),
        Some(mac.to_string())
    );
    let windows = "C:/d/com.llmwiki.app";
    assert_eq!(
        data_dir(
            &[windows],
            get_app_data_dir(None, Platform::Windows, home(), None, data())
        ),
        Some(windows.to_string())
    );
    for step in [
        get_app_data_dir(None, Platform::Windows, home(), None, None),
        get_app_data_dir(None, Platform::Other, None, None, data()),
    ] {
        assert!(matches!(step, DataDirStep::Done(None)));
    }
    assert_eq!(fallback_home(home(), profile()), "/home/u");
    assert_eq!(fallback_home(None, profile()), "/u");
    assert_eq!(fallback_home(None, None), ".");
    assert_eq!(state_file("/d"), "/d/app-state.json");
}

#[test]
fn configured_directory_goes_first() {
    let customary = "/home/u/.local/share/com.llmwiki.app";
    let found = |there: &[&str]| {
        data_dir(
            there,
            get_app_data_dir(
                Some("/set".to_string()),
                Platform::Other,
                Some("/home/u".to_string()),
                None,
                None,
            ),
        )
    };
    assert_eq!(found(&["/set", customary]), Some("/set".to_string()));
    assert_eq!(found(&[customary]), Some(customary.to_string()));
    assert_eq!(found(&[]), None);
}

#[test]
fn workspace_is_made_below_the_data() {
    let text = |t: &str| Some(t.to_string());
    assert_eq!(
        workspace_path(Platform::Other, text("/d"), text("/home/u"), None),
        "/d/default-workspace"
    );
    assert_eq!(
        workspace_path(Platform::Other, None, text("/home/u"), None),
        "/home/u/Library/Application Support/com.llmwiki.app/default-workspace"
    );
    assert_eq!(
        workspace_path(Platform::Other, None, None, None),
        "./Library/Application Support/com.llmwiki.app/default-workspace"
    );
    assert_eq!(
        workspace_path(Platform::Windows, text("C:\\d\\"), None, None),
        "C:/d/default-workspace"
    );
}

#[test]
fn boundaries_are_read_from_headers() {
    let found = get_multipart_boundary(&headers(&[
        ("Accept", "multipart/form-data; boundary=no"),
        ("CONTENT-TYPE", "Multipart/Form-Data; boundary=--x; charset=a"),
    ]));
    assert_eq!(found, Some("--x; charset=a".to_string()));
    let two = get_multipart_boundary(&headers(&[
        ("Content-Type", "multipart/form-data"),
        ("Content-Type", "multipart/form-data;boundary=b"),
    ]));
    assert_eq!(two, Some("b".to_string()));
    let none = get_multipart_boundary(&headers(&[("Content-Type", "text/plain; boundary=b")]));
    assert_eq!(none, None);
    assert_eq!(code(&no_form_response()), (400, "INVALID_CONTENT_TYPE"));
}

#[test]
fn uploads_find_a_project() {
    let all = || vec![project("a", "/a", false), project("b", "/b", true)];
    let id = |query: &str| upload_target(query, all(), Platform::Other).map(|p| p.id);
    assert_eq!(id("projectId=a"), Some("a".to_string()));
    assert_eq!(id("projectId=unknown"), Some("b".to_string()));
    assert_eq!(id(""), Some("b".to_string()));
    assert!(upload_target("projectId=a", vec![], Platform::Other).is_none());
    assert!(try_upload_target("projectId=%25a%E4%B8%AD", all(), Platform::Other).is_none());
    assert!(try_upload_target("", all(), Platform::Other).is_some());
    let workspace = default_workspace("C:\\data\\default-workspace\\");
    assert_eq!(workspace.id, "default");
    assert_eq!(workspace.path, "C:/data/default-workspace");
    assert!(workspace.current);
}

#[test]
fn uploads_are_answered_with_their_places() {
    let upload = Upload::new(&project("p", "/p", true));
    assert_eq!(upload.directory(), "/p/wiki");
    assert_eq!(
        upload.target(Platform::Other, None),
        (
            "uploaded_file.txt".to_string(),
            "/p/wiki/uploaded_file.txt".to_string()
        )
    );
    let (name, path) = upload.target(Platform::Other, Some("a.md"));
    assert_eq!(path, "/p/wiki/a.md");
    let upload = upload.take(&name, FileOutcome::Stored).ok().unwrap();
    let upload = upload.take("b.md", FileOutcome::Stored).ok().unwrap();
    let answer = upload.finish();
    assert_eq!(answer.status, 200);
    assert_eq!(answer.body.text_field("location"), Some("wiki/a.md"));
    match answer.body.get("documents") {
        Some(Json::Array(items)) => {
            assert_eq!(items.len(), 2);
            assert_eq!(items[1].text_field("location"), Some("wiki/b.md"));
        }
        other => panic!("no array: {other:?}"),
    }
    let empty = Upload::new(&project("p", "/p", true)).finish();
    assert!(matches!(empty.body.get("location"), Some(Json::Null)));
}

#[test]
fn uploads_tell_what_failed() {
    let upload = || Upload::new(&project("p", "/p", true));
    assert_eq!(
        message(&upload().no_directory("full")),
        "Failed to create wiki dir: full"
    );
    let failed = upload().take("a.md", FileOutcome::NotCreated("no".to_string()));
    let failed = failed.err().unwrap();
    assert_eq!(code(&failed), (500, "FILE_CREATE_FAILED"));
    assert_eq!(message(&failed), "Failed to create file a.md: no");
    let failed = upload().take("a.md", FileOutcome::NotWritten("no".to_string()));
    let failed = failed.err().unwrap();
    assert_eq!(code(&failed), (500, "FILE_WRITE_FAILED"));
    assert_eq!(message(&failed), "Failed to write file a.md: no");
}

#[test]
fn images_are_taken_out_of_documents() {
    let ask = |path: &str| {
        handle_extract_images(
            Ok(ExtractImagesRequest {
                source_path: path.to_string(),
            }),
            Ok(project("p", "/p", true)),
            Platform::Other,
        )
    };
    let source = ask("raw/sources/My Report.PDF").ok().unwrap();
    assert_eq!(source.full_path, "/p/raw/sources/My Report.PDF");
    let plan = source.plan(PathKind::File).ok().unwrap();
    assert_eq!(plan.kind, DocumentKind::Pdf);
    assert_eq!(plan.wiki_root, "/p/wiki");
    assert_eq!(plan.media_dir, "/p/wiki/media/My-Report");
    let answer = plan.respond(Ok(vec![Json::Null]));
    assert_eq!(answer.body.text_field("mediaDir"), Some("wiki/media/My-Report"));
    assert_eq!(
        answer.body.text_field("sourcePath"),
        Some("raw/sources/My Report.PDF")
    );
    let plan = ask("a.docx").ok().unwrap().plan(PathKind::File).ok().unwrap();
    assert_eq!(plan.kind, DocumentKind::Office);
    assert_eq!(
        code(&plan.respond(Err("bad".to_string()))),
        (500, "EXTRACT_IMAGES_FAILED")
    );
}

#[test]
fn images_are_refused() {
    let ask = |path: &str| {
        handle_extract_images(
            Ok(ExtractImagesRequest {
                source_path: path.to_string(),
            }),
            Ok(project("p", "/p", true)),
            Platform::Other,
        )
    };
    assert_eq!(
        code(&ask(" ").err().unwrap()),
        (400, "SOURCE_PATH_REQUIRED")
    );
    assert_eq!(code(&ask("../x").err().unwrap()), (400, "INVALID_PATH"));
    let plan = |path: &str, kind: PathKind| ask(path).ok().unwrap().plan(kind).err().unwrap();
    assert_eq!(
        code(&plan("a.pdf", PathKind::Missing)),
        (404, "SOURCE_NOT_FOUND")
    );
    assert_eq!(
        code(&plan("a.pdf", PathKind::Directory)),
        (400, "SOURCE_NOT_FILE")
    );
    assert_eq!(
        code(&plan("a.txt", PathKind::File)),
        (400, "UNSUPPORTED_SOURCE_TYPE")
    );
    assert_eq!(
        code(&plan("README", PathKind::File)),
        (400, "UNSUPPORTED_SOURCE_TYPE")
    );
    let bad = handle_extract_images(
        Err("eof".to_string()),
        Err("none".to_string()),
        Platform::Other,
    );
    assert_eq!(code(&bad.err().unwrap()), (400, "INVALID_JSON"));
    let unknown = handle_extract_images(
        Ok(ExtractImagesRequest {
            source_path: "a.pdf".to_string(),
        }),
        Err("none".to_string()),
        Platform::Other,
    );
    assert_eq!(code(&unknown.err().unwrap()), (404, "PROJECT_NOT_FOUND"));
}

#[test]
fn uploads_go_by_the_platform() {
    let upload = Upload::new(&project("p", "C:/p", true));
    let path = |name: &str| upload.target(Platform::Windows, Some(name)).1;
    assert_eq!(path("a\\b.md"), "C:/p/wiki/a/b.md");
    assert_eq!(path("D:\\b.md"), "D:/b.md");
    assert_eq!(path("\\b.md"), "C:/b.md");
    assert_eq!(
        upload.target(Platform::Other, Some("a\\b.md")).1,
        "C:/p/wiki/a\\b.md"
    );
}

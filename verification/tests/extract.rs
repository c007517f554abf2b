use base64::engine::general_purpose::STANDARD as B64;
use base64::Engine as _;
use omnimind_server::extract::{
    accept_content, content_bytes_within_limit, estimated_base64_decoded_len, handle_extract_text,
    handle_extract_text_from_content, handle_extract_text_from_path, is_extract_text_allowed_ext,
    map_read_file_error, normalize_extract_extension, path_error_response, path_text_response,
    plan_extraction, sanitize_memory_filename, temp_file_name, ContentPlan, ExtractMode,
    ExtractTextRequest, EXTRACT_CONTENT_MAX_BYTES,
};
use omnimind_server::json::Json;
use omnimind_server::projects::ProjectEntry;
use omnimind_server::resolve::{resolve_project_file_path, ResolveStep};
use omnimind_server::response::{error_response, OmnimindResponse};
use omnimind_server::startup::Platform;

fn request() -> ExtractTextRequest {
    ExtractTextRequest {
        path: None,
        project_id: None,
        extension: None,
        content_base64: None,
        filename: None,
    }
}

fn sent(
    extension: Option<&str>,
    content: &[u8],
    filename: Option<&str>,
) -> Result<ContentPlan, OmnimindResponse> {
    let request = ExtractTextRequest {
        extension: extension.map(str::to_string),
        content_base64: Some(B64.encode(content)),
        filename: filename.map(str::to_string),
        ..request()
    };
    match handle_extract_text(Ok(request)) {
        Ok(ExtractMode::Content(request)) => handle_extract_text_from_content(&request, Platform::Other, 42),
        _ => panic!("the request sends content"),
    }
}

fn code(answer: &OmnimindResponse) -> &str {
    answer
        .body
        .get("error")
        .unwrap()
        .text_field("code")
        .unwrap()
}

fn project(path: &str) -> ProjectEntry {
    ProjectEntry {
        id: "p".to_string(),
        name: "P".to_string(),
        path: path.to_string(),
        current: true,
    }
}

fn resolve(root: &str, path: &str) -> Result<Vec<u8>, String> {
    let files = ["/real/inside.md", "/tmp/outside.txt"];
    let canonical = |path: &str| match path {
        "/root" => Ok("/real".to_string()),
        "/root/inside.md" => Ok("/real/inside.md".to_string()),
        "/real/inside.md" => Ok("/real/inside.md".to_string()),
        "/tmp/outside.txt" => Ok("/tmp/outside.txt".to_string()),
        _ => Err("no such file".to_string()),
    };
    let mut step = resolve_project_file_path(Platform::Other, root, path);
    loop {
        step = match step {
            ResolveStep::Root(question) => {
                let answer = canonical(&question.project_path).map(String::into_bytes);
                question.answer(answer)
            }
            ResolveStep::Exists(question) => {
                let there = question.candidate == "/root/broken.md"
                    || canonical(&question.candidate)
                        .map(|real| files.contains(&real.as_str()))
                        .unwrap_or(false);
                question.answer(there)
            }
            ResolveStep::Canonical(question) => {
                let answer = canonical(&question.candidate).map(String::into_bytes);
                question.answer(answer)
            }
            ResolveStep::Done(done) => return done,
        };
    }
}

#[test]
fn extract_text_path_resolution_rejects_traversal() {
    let ok = resolve("/root", "inside.md").unwrap();
    assert!(ok.ends_with(b"inside.md"));
    let abs_ok = resolve("/root", "/root/inside.md").unwrap();
    assert!(abs_ok.ends_with(b"inside.md"));
    let err = resolve("/root", "/tmp/outside.txt").unwrap_err();
    assert!(err.to_lowercase().contains("outside"), "{err}");
    let trav = resolve("/root", "../secret.md").unwrap_err();
    assert!(
        trav.to_lowercase().contains("traversal")
            || trav.to_lowercase().contains("outside")
            || trav.to_lowercase().contains("not allowed"),
        "{trav}"
    );
}

#[test]
fn path_resolution_says_why_it_fails() {
    let refusal = |root: &str, path: &str| resolve(root, path).unwrap_err();
    assert_eq!(refusal("/root", " \n "), "path must not be empty");
    assert_eq!(
        refusal("/lost", "a.md"),
        "Failed to resolve project root: no such file"
    );
    assert_eq!(
        refusal("/root", " a.md "),
        "File does not exist: /root/a.md"
    );
    assert_eq!(
        refusal("/root", "/real/x/../gone.md"),
        "File does not exist: /real/x/../gone.md"
    );
    assert_eq!(
        refusal("/root", "/real/../gone.md"),
        "Path is outside project directory"
    );
    assert_eq!(
        refusal("/root", "broken.md"),
        "Failed to resolve path: no such file"
    );
}

#[test]
fn extract_text_content_base64_md_extracts_text() {
    let markdown = "# Hello DMS\n\ncontent from base64 mode\n";
    let plan = sent(Some("md"), markdown.as_bytes(), Some("note.md"))
        .ok()
        .unwrap();
    let read = String::from_utf8(plan.bytes.clone()).unwrap();
    let resp = plan.respond(Ok(read));
    assert_eq!(resp.status, 200, "{:?}", resp.body);
    assert!(matches!(resp.body.get("ok"), Some(Json::Bool(true))));
    assert_eq!(resp.body.text_field("extension"), Some("md"));
    assert_eq!(resp.body.text_field("path"), Some("memory:note.md"));
    assert_eq!(resp.body.text_field("content"), Some(markdown));
    assert!(matches!(
        resp.body.get("chars"),
        Some(Json::UInt(n)) if *n == markdown.chars().count() as u64
    ));
}

#[test]
fn extract_text_content_mode_rejects_illegal_extension() {
    let resp = sent(Some("exe"), b"MZ fake binary", Some("malware.exe"))
        .err()
        .unwrap();
    assert_eq!(resp.status, 422, "{:?}", resp.body);
    assert!(matches!(resp.body.get("ok"), Some(Json::Bool(false))));
    assert_eq!(code(&resp), "UNSUPPORTED_FORMAT");
}

#[test]
fn extract_text_content_mode_rejects_oversized_payload() {
    assert_eq!(EXTRACT_CONTENT_MAX_BYTES, 100 * 1024 * 1024);

    assert!(content_bytes_within_limit(EXTRACT_CONTENT_MAX_BYTES as usize).is_ok());
    let over = content_bytes_within_limit(EXTRACT_CONTENT_MAX_BYTES as usize + 1);
    assert!(over.is_err(), "expected size rejection");
    let msg = over.unwrap_err();
    assert!(msg.to_lowercase().contains("exceeds") || msg.contains("100"));

    let over_decoded = EXTRACT_CONTENT_MAX_BYTES + 4;
    let b64_len = ((over_decoded + 2) / 3 * 4) as usize;
    let estimated = estimated_base64_decoded_len(b64_len);
    assert!(
        estimated > EXTRACT_CONTENT_MAX_BYTES + 3,
        "estimate {estimated} should exceed limit+3"
    );

    let resp = error_response(
        413,
        "PAYLOAD_TOO_LARGE",
        &format!(
            "Decoded content exceeds the {} MB limit",
            EXTRACT_CONTENT_MAX_BYTES / 1024 / 1024
        ),
    );
    assert_eq!(resp.status, 413);
    assert_eq!(code(&resp), "PAYLOAD_TOO_LARGE");
}

#[test]
fn extract_text_content_mode_requires_extension() {
    let resp = sent(None, b"hello", None).err().unwrap();
    assert_eq!(resp.status, 400, "{:?}", resp.body);
    assert_eq!(code(&resp), "EXTENSION_REQUIRED");
}

#[test]
fn file_names_give_no_extension() {
    let resp = sent(None, b"hello", Some("note.md")).err().unwrap();
    assert_eq!((resp.status, code(&resp)), (400, "EXTENSION_REQUIRED"));
    let resp = sent(Some(" . "), b"hello", Some("note.md")).err().unwrap();
    assert_eq!((resp.status, code(&resp)), (400, "EXTENSION_REQUIRED"));
}

#[test]
fn estimates_do_not_overflow() {
    assert_eq!(estimated_base64_decoded_len(4), 3);
    assert_eq!(estimated_base64_decoded_len(0), 0);
    assert_eq!(estimated_base64_decoded_len(usize::MAX), u64::MAX / 4);
}

#[test]
fn sent_documents_are_decoded_and_named() {
    let plan = sent(Some(" .TXT"), b"hello", Some("dir/Report.TXT")).ok().unwrap();
    assert_eq!(plan.bytes, b"hello");
    assert_eq!(plan.extension, "txt");
    assert_eq!(plan.memory_name, "Report.TXT");
    assert!(plan.temp_name.starts_with("omnimind-extract-42-"));
    assert!(plan.temp_name.ends_with(".txt"));
    let unique = &plan.temp_name[20..56];
    for (i, c) in unique.chars().enumerate() {
        if [8, 13, 18, 23].contains(&i) {
            assert_eq!(c, '-');
        } else {
            assert!(c.is_ascii_digit() || ('a'..='f').contains(&c));
        }
    }
    let again = sent(Some(" .TXT"), b"hello", Some("dir/Report.TXT")).ok().unwrap();
    assert_ne!(plan.temp_name, again.temp_name);
    assert_eq!(
        plan.not_written("disk full").body.get("error").unwrap().text_field("message"),
        Some("Failed to write temp file: disk full")
    );
}

#[test]
fn broken_base64_is_refused() {
    let request = ExtractTextRequest {
        extension: Some(".MD".to_string()),
        content_base64: Some("!!!!".to_string()),
        ..request()
    };
    let answer = handle_extract_text_from_content(&request, Platform::Other, 1).err().unwrap();
    assert_eq!(answer.status, 400);
    assert_eq!(code(&answer), "INVALID_BASE64");
    assert_eq!(
        answer.body.get("error").unwrap().text_field("message"),
        Some("Invalid base64: Invalid symbol 33, offset 0.")
    );
    let refused = accept_content(Platform::Other, None, "md".to_string(), Err("bad".to_string()), 1, "u");
    assert_eq!(code(&refused.err().unwrap()), "INVALID_BASE64");
    let plan = accept_content(Platform::Other, None, "md".to_string(), Ok(vec![1, 2]), 7, "u")
        .ok()
        .unwrap();
    assert_eq!(plan.bytes, vec![1, 2]);
    assert_eq!(plan.memory_name, "upload.md");
    assert_eq!(plan.temp_name, "omnimind-extract-7-u.md");
}

#[test]
fn requests_without_content_name_a_path() {
    let blank = ExtractTextRequest {
        content_base64: Some(" \n".to_string()),
        path: Some(" a.md ".to_string()),
        ..request()
    };
    let asked = match handle_extract_text(Ok(blank)) {
        Ok(ExtractMode::Path(asked)) => asked,
        _ => panic!("blank content is none"),
    };
    let source = handle_extract_text_from_path(&asked, vec![project("/root")], Platform::Other)
        .ok()
        .unwrap();
    assert_eq!(source.project.id, "p");
    assert!(matches!(
        source.step,
        ResolveStep::Root(question) if question.wanted == "a.md"
    ));
    let none = handle_extract_text_from_path(&asked, vec![], Platform::Other).err().unwrap();
    assert_eq!((none.status, code(&none)), (404, "PROJECT_NOT_FOUND"));
    let empty = handle_extract_text_from_path(&request(), vec![project("/root")], Platform::Other)
        .err()
        .unwrap();
    assert_eq!((empty.status, code(&empty)), (400, "PATH_REQUIRED"));
    let bad = handle_extract_text(Err("eof".to_string())).err().unwrap();
    assert_eq!((bad.status, code(&bad)), (400, "INVALID_JSON"));
}

#[test]
fn errors_are_answered_by_what_they_say() {
    let read = |e: &str| {
        let answer = map_read_file_error(e);
        (answer.status, code(&answer).to_string())
    };
    assert_eq!(
        read("File DOES NOT EXIST"),
        (404, "FILE_NOT_FOUND".to_string())
    );
    assert_eq!(
        read("format is Not Supported"),
        (422, "UNSUPPORTED_FORMAT".to_string())
    );
    assert_eq!(
        read("unsupported file"),
        (422, "UNSUPPORTED_FORMAT".to_string())
    );
    assert_eq!(read("broken"), (422, "EXTRACT_FAILED".to_string()));
    let path = |e: &str| {
        let answer = path_error_response(e);
        (answer.status, code(&answer).to_string())
    };
    assert_eq!(
        path("Path is outside project directory"),
        (400, "INVALID_PATH".to_string())
    );
    assert_eq!(
        path("Path traversal is not allowed"),
        (400, "INVALID_PATH".to_string())
    );
    assert_eq!(
        path("File does not exist: a"),
        (404, "FILE_NOT_FOUND".to_string())
    );
    assert_eq!(
        path("path must not be empty"),
        (400, "PATH_REQUIRED".to_string())
    );
    assert_eq!(
        path("Failed to resolve path: x"),
        (400, "INVALID_PATH".to_string())
    );
}

#[test]
fn found_documents_are_answered() {
    assert_eq!(code(&plan_extraction(true).unwrap()), "NOT_A_FILE");
    assert!(plan_extraction(false).is_none());
    let answer = path_text_response(&project("/p"), b"/p/raw/A.PDF", Ok("äb".to_string()));
    assert_eq!(answer.status, 200);
    assert_eq!(answer.body.text_field("path"), Some("raw/A.PDF"));
    assert_eq!(answer.body.text_field("extension"), Some("pdf"));
    assert!(matches!(answer.body.get("chars"), Some(Json::UInt(2))));
    let bare = path_text_response(&project("/p"), b"/elsewhere/README", Ok(String::new()));
    assert_eq!(bare.body.text_field("path"), Some("/elsewhere/README"));
    assert_eq!(bare.body.text_field("extension"), Some(""));
    let failed = path_text_response(&project("/p"), b"/p/a", Err("broken".to_string()));
    assert_eq!(code(&failed), "EXTRACT_FAILED");
}

#[test]
fn extensions_are_normal_and_known() {
    assert_eq!(normalize_extract_extension(" ..PDF "), "pdf");
    assert_eq!(normalize_extract_extension("ÄB"), "äb");
    for ext in ["epub", "docx", "markdown", "yml", "text", "rst"] {
        assert!(is_extract_text_allowed_ext(ext), "{ext}");
    }
    for ext in ["", "PDF", "png", "exe", "pd"] {
        assert!(!is_extract_text_allowed_ext(ext), "{ext}");
    }
}

#[test]
fn shown_names_are_plain() {
    assert_eq!(sanitize_memory_filename(Platform::Other, None, "md"), "upload.md");
    assert_eq!(sanitize_memory_filename(Platform::Other, Some("  "), "md"), "upload.md");
    assert_eq!(sanitize_memory_filename(Platform::Other, Some("a/b/c.md"), "md"), "c.md");
    assert_eq!(sanitize_memory_filename(Platform::Other, Some("a\\b\0.md"), "md"), "a_b_.md");
    assert_eq!(sanitize_memory_filename(Platform::Other, Some("x/.."), "md"), "x_..");
    assert_eq!(sanitize_memory_filename(Platform::Other, Some(".."), "md"), "upload.md");
    assert_eq!(sanitize_memory_filename(Platform::Other, Some("/"), "md"), "_");
    assert_eq!(
        sanitize_memory_filename(Platform::Windows, Some("C:\\a\\b.md"), "md"),
        "b.md"
    );
    assert_eq!(temp_file_name(7, "u", "md"), "omnimind-extract-7-u.md");
}

#[test]
fn windows_paths_are_resolved() {
    let root = |path: &str| {
        let step = resolve_project_file_path(Platform::Windows, "C:/p", path);
        match step {
            ResolveStep::Root(question) => question.answer(Ok(b"//?/C:/p".to_vec())),
            _ => panic!("the root comes first"),
        }
    };
    match root("raw\\a.md") {
        ResolveStep::Exists(question) => {
            assert_eq!(question.candidate, "C:/p/raw/a.md");
            assert!(!question.absolute);
        }
        _ => panic!("then the file"),
    }
    match root("C:\\x") {
        ResolveStep::Exists(question) => {
            assert!(question.absolute);
            match question.answer(false) {
                ResolveStep::Done(done) => {
                    assert_eq!(done, Err("Path is outside project directory".to_string()));
                }
                _ => panic!("what is not there ends the search"),
            }
        }
        _ => panic!("then the file"),
    }
    match root("..\\secret") {
        ResolveStep::Done(done) => {
            assert_eq!(done, Err("Path traversal is not allowed".to_string()));
        }
        _ => panic!("nothing is looked for outside"),
    }
}

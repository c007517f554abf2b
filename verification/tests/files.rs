use omnimind_server::files::{
    content_response, delete_response, handle_delete_file, handle_files, handle_get_file_content,
    handle_save_file, plan_deletion, plan_reading, save_response, try_get_file_content,
    DeleteFileRequest, Deletion, FilesRoot, PathKind, SaveFileRequest, SaveOutcome,
};
use omnimind_server::json::Json;
use omnimind_server::listing::{
    list_public_roots, list_tree, nodes_json, public_root_paths, ApiFileNode, EntryKind, ListStep,
};
use omnimind_server::projects::ProjectEntry;
use omnimind_server::response::OmnimindResponse;
use omnimind_server::startup::Platform;

fn project(id: &str, path: &str, current: bool) -> ProjectEntry {
    ProjectEntry {
        id: id.to_string(),
        name: id.to_string(),
        path: path.to_string(),
        current,
    }
}

fn code(answer: &OmnimindResponse) -> (u16, &str) {
    let code = answer.body.get("error").unwrap().text_field("code");
    (answer.status, code.unwrap())
}

fn message(answer: &OmnimindResponse) -> &str {
    answer
        .body
        .get("error")
        .unwrap()
        .text_field("message")
        .unwrap()
}

struct Disk {
    directories: Vec<(&'static str, Vec<Result<&'static str, &'static str>>)>,
    links: Vec<&'static str>,
}

impl Disk {
    fn run(&self, step: ListStep) -> Result<Vec<ApiFileNode>, String> {
        let mut step = step;
        loop {
            step = match step {
                ListStep::Metadata(question) => {
                    let path = String::from_utf8(question.path().clone()).unwrap();
                    let answer = if path.ends_with("locked") {
                        Err("denied".to_string())
                    } else if self.links.contains(&path.as_str()) {
                        Ok(EntryKind::Symlink)
                    } else if self.directories.iter().any(|(name, _)| *name == path) {
                        Ok(EntryKind::Directory)
                    } else {
                        Ok(EntryKind::File(path.len() as u64))
                    };
                    question.answer(answer)
                }
                ListStep::Directory(question) => {
                    let path = String::from_utf8(question.path().clone()).unwrap();
                    let answer = match self.directories.iter().find(|(name, _)| *name == path) {
                        Some((_, entries)) => Ok(entries
                            .iter()
                            .map(|entry| match entry {
                                Ok(path) => Ok(path.as_bytes().to_vec()),
                                Err(e) => Err(e.to_string()),
                            })
                            .collect()),
                        None => Err("not there".to_string()),
                    };
                    question.answer(answer)
                }
                ListStep::Done(done) => return done,
            };
        }
    }
}

fn disk() -> Disk {
    Disk {
        directories: vec![
            (
                "/p/wiki",
                vec![
                    Ok("/p/wiki/b.md"),
                    Ok("/p/wiki/.hidden"),
                    Ok("/p/wiki/sub"),
                    Ok("/p/wiki/a.md"),
                    Ok("/p/wiki/link"),
                ],
            ),
            ("/p/wiki/sub", vec![Ok("/p/wiki/sub/c.md")]),
            ("/p/bad", vec![Ok("/p/bad/a"), Err("torn")]),
            ("/p/closed", vec![Ok("/p/closed/locked")]),
        ],
        links: vec!["/p/wiki/link"],
    }
}

fn names(nodes: &[ApiFileNode]) -> Vec<&str> {
    nodes.iter().map(|n| n.name.as_str()).collect()
}

#[test]
fn listings_are_sorted_and_leave_out_hidden_entries() {
    let step = list_tree("/p", b"/p/wiki".to_vec(), true, 100);
    let nodes = disk().run(step).ok().unwrap();
    assert_eq!(names(&nodes), vec!["sub", "a.md", "b.md"]);
    assert!(nodes[0].is_dir);
    assert_eq!(nodes[0].size, None);
    assert_eq!(nodes[0].path, "wiki/sub");
    let children = nodes[0].children.as_ref().unwrap();
    assert_eq!(names(children), vec!["c.md"]);
    assert_eq!(children[0].size, Some(16));
    assert!(nodes[1].children.is_none());
    match nodes_json(&nodes) {
        Json::Array(items) => {
            assert_eq!(items.len(), 3);
            assert_eq!(items[0].text_field("name"), Some("sub"));
            assert!(matches!(items[0].get("size"), Some(Json::Null)));
            assert!(matches!(items[1].get("children"), Some(Json::Null)));
            assert!(matches!(items[1].get("isDir"), Some(Json::Bool(false))));
        }
        other => panic!("no array: {other:?}"),
    }
}

#[test]
fn listings_keep_to_their_limit() {
    let step = list_tree("/p", b"/p/wiki".to_vec(), true, 4);
    assert_eq!(disk().run(step).ok().unwrap().len(), 3);
    let step = list_tree("/p", b"/p/wiki".to_vec(), true, 3);
    assert_eq!(
        disk().run(step).err().unwrap(),
        "File listing exceeds maxFiles limit (3)"
    );
    let step = list_tree("/p", b"/p/wiki".to_vec(), false, 3);
    let nodes = disk().run(step).ok().unwrap();
    assert!(nodes[0].is_dir && nodes[0].children.is_none());
}

#[test]
fn listings_tell_what_failed() {
    let run = |path: &str| {
        let step = list_tree("/p", path.as_bytes().to_vec(), true, 10);
        disk().run(step).err().unwrap()
    };
    assert_eq!(run("/p/none"), "Failed to list directory: not there");
    assert_eq!(run("/p/bad"), "Failed to read directory entry: torn");
    assert_eq!(run("/p/closed"), "Failed to read metadata: denied");
}

#[test]
fn public_roots_are_listed_in_their_order() {
    assert_eq!(
        public_root_paths("/p"),
        vec!["/p/purpose.md", "/p/schema.md", "/p/wiki", "/p/raw/sources"]
    );
    let step = list_public_roots("/p", &[true, false, true, false], false, 10);
    let nodes = disk().run(step).ok().unwrap();
    assert_eq!(names(&nodes), vec!["purpose.md", "wiki"]);
    let step = list_public_roots("/p", &[], true, 10);
    assert!(disk().run(step).ok().unwrap().is_empty());
}

#[test]
fn files_are_listed_as_asked() {
    let ask = |query: &str| handle_files(Ok(project("p", "/p", true)), query);
    let plan = ask("").ok().unwrap();
    assert_eq!(plan.root, FilesRoot::Wiki);
    assert!(plan.recursive);
    assert_eq!(plan.max_files, 2000);
    let plan = ask("root=raw&recursive=false&maxFiles=99999").ok().unwrap();
    assert_eq!(plan.root, FilesRoot::Sources);
    assert!(!plan.recursive);
    assert_eq!(plan.max_files, 10000);
    assert_eq!(ask("root=").ok().unwrap().root, FilesRoot::All);
    assert_eq!(ask("maxFiles=0").ok().unwrap().max_files, 1);
    assert_eq!(ask("maxFiles=x").ok().unwrap().max_files, 2000);
    assert_eq!(
        code(&ask("root=etc").err().unwrap()),
        (400, "INVALID_ROOT")
    );
    let unknown = handle_files(Err("Unknown project: x".to_string()), "").err();
    assert_eq!(code(&unknown.unwrap()), (404, "PROJECT_NOT_FOUND"));
}

#[test]
fn listings_are_answered() {
    let plan = handle_files(Ok(project("p", "/p", true)), "").ok().unwrap();
    let answer = plan.respond(disk().run(plan.begin(&[])));
    assert_eq!(answer.status, 200);
    assert_eq!(answer.body.text_field("root"), Some("wiki"));
    assert!(matches!(
        answer.body.get("files"),
        Some(Json::Array(items)) if items.len() == 3
    ));
    let plan = handle_files(Ok(project("p", "/p", true)), "root=all")
        .ok()
        .unwrap();
    let answer = plan.respond(disk().run(plan.begin(&[true, true, true, false])));
    assert_eq!(answer.body.text_field("root"), Some("all"));
    assert!(matches!(
        answer.body.get("files"),
        Some(Json::Array(items)) if items.len() == 3
    ));
    let plan = handle_files(Ok(project("p", "/p", true)), "root=sources")
        .ok()
        .unwrap();
    let answer = plan.respond(disk().run(plan.begin(&[])));
    assert_eq!(code(&answer), (500, "LIST_FILES_FAILED"));
}

#[test]
fn files_are_saved_inside_the_project() {
    let save = |id: Option<&str>, path: &str| {
        handle_save_file(
            Ok(SaveFileRequest {
                project_id: id.map(str::to_string),
                path: path.to_string(),
                content: "text".to_string(),
            }),
            vec![project("a", "/a", false), project("b", "/b", true)],
            Platform::Other,
        )
    };
    let plan = save(Some("a"), "/wiki/x.md").ok().unwrap();
    assert_eq!(plan.path, "/a/wiki/x.md");
    assert_eq!(plan.content, "text");
    assert_eq!(save(None, "x.md").ok().unwrap().path, "/b/x.md");
    assert_eq!(
        code(&save(None, "../x.md").err().unwrap()),
        (400, "INVALID_PATH")
    );
    assert_eq!(
        code(&save(Some("c"), "x.md").err().unwrap()),
        (404, "PROJECT_NOT_FOUND")
    );
    let bad = handle_save_file(Err("eof".to_string()), vec![], Platform::Other).err();
    assert_eq!(message(&bad.unwrap()), "Invalid JSON: eof");
    assert_eq!(save_response(SaveOutcome::Saved).status, 200);
    let failed = save_response(SaveOutcome::NoDirectory("x".to_string()));
    assert_eq!(code(&failed), (500, "CREATE_DIR_FAILED"));
    let failed = save_response(SaveOutcome::NotWritten("x".to_string()));
    assert_eq!(message(&failed), "Failed to write file: x");
}

#[test]
fn files_are_deleted_by_what_they_are() {
    let delete = |path: &str| {
        handle_delete_file(
            Ok(DeleteFileRequest {
                project_id: None,
                path: path.to_string(),
            }),
            vec![project("a", "/a", false)],
            Platform::Other,
        )
    };
    assert_eq!(delete("x").ok().unwrap(), "/a/x");
    assert_eq!(code(&delete("a/../..").err().unwrap()), (400, "INVALID_PATH"));
    assert!(matches!(
        plan_deletion(PathKind::Directory),
        Ok(Deletion::Directory)
    ));
    assert!(matches!(plan_deletion(PathKind::File), Ok(Deletion::File)));
    let missing = plan_deletion(PathKind::Missing).err().unwrap();
    assert_eq!(code(&missing), (404, "FILE_NOT_FOUND"));
    assert_eq!(delete_response(Deletion::File, None).status, 200);
    let failed = delete_response(Deletion::File, Some("busy".to_string()));
    assert_eq!(message(&failed), "Failed to delete file: busy");
    let failed = delete_response(Deletion::Directory, Some("busy".to_string()));
    assert_eq!(message(&failed), "Failed to delete directory: busy");
    let none = handle_delete_file(
        Ok(DeleteFileRequest {
            project_id: None,
            path: "x".to_string(),
        }),
        vec![],
        Platform::Other,
    );
    assert_eq!(message(&none.err().unwrap()), "No project found");
}

#[test]
fn files_are_read_inside_the_project() {
    let projects = || vec![project("a b", "/a", false), project("b", "/b", true)];
    let path = handle_get_file_content("path=x%2Fy.md&projectId=a+b", projects(), Platform::Other);
    assert_eq!(path.ok().unwrap(), "/a/x/y.md");
    let path = handle_get_file_content("path=y", projects(), Platform::Other);
    assert_eq!(path.ok().unwrap(), "/b/y");
    let none = handle_get_file_content("", projects(), Platform::Other).err();
    assert_eq!(code(&none.unwrap()), (400, "PATH_REQUIRED"));
    assert!(try_get_file_content("path=y&projectId=%25a%E4%B8%AD", projects(), Platform::Other).is_none());
    assert!(try_get_file_content("path=y&projectId=b", projects(), Platform::Other).is_some());
    let none = try_get_file_content("projectId=%25a%E4%B8%AD", projects(), Platform::Other).unwrap();
    assert_eq!(code(&none.err().unwrap()), (400, "PATH_REQUIRED"));
    assert_eq!(
        code(&plan_reading(PathKind::Directory).unwrap()),
        (400, "NOT_A_FILE")
    );
    assert_eq!(
        code(&plan_reading(PathKind::Missing).unwrap()),
        (404, "FILE_NOT_FOUND")
    );
    assert!(plan_reading(PathKind::File).is_none());
    let read = content_response(Ok("text".to_string()));
    assert_eq!(read.body.text_field("content"), Some("text"));
    let failed = content_response(Err("x".to_string()));
    assert_eq!(code(&failed), (500, "READ_FAILED"));
}

#[test]
fn windows_paths_stay_inside_the_project() {
    let save = |path: &str| {
        handle_save_file(
            Ok(SaveFileRequest {
                project_id: None,
                path: path.to_string(),
                content: String::new(),
            }),
            vec![project("a", "C:/a", true)],
            Platform::Windows,
        )
    };
    assert_eq!(save("raw\\x.md").ok().unwrap().path, "C:/a/raw/x.md");
    for path in ["..\\secret", "a\\..\\..\\b", "\\x", "C:x"] {
        let answer = save(path).err().unwrap();
        assert_eq!(code(&answer), (400, "INVALID_PATH"), "{path}");
        assert_eq!(message(&answer), "Path traversal is not allowed", "{path}");
    }
    for path in ["C:\\x", "d:/x", "\\\\server\\share\\x"] {
        let answer = save(path).err().unwrap();
        assert_eq!(code(&answer), (400, "INVALID_PATH"), "{path}");
        assert_eq!(message(&answer), "Absolute paths are not allowed", "{path}");
    }
}

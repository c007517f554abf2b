use omnimind_server::json::Json;
use omnimind_server::projects::{
    cached_app_state, get_target_project, handle_projects, load_app_state, load_embedding_config,
    load_projects, merge_projects, project_id_file, read_project_id, read_registry,
    resolve_project, store_state, CachedAppState, OpenedProject, PastProject, ProjectEntry,
    RegistryEntry, APP_STATE_CACHE_TTL,
};
use omnimind_server::startup::Platform;

fn opened(name: &str, path: &str, id_file: Option<&str>) -> OpenedProject {
    OpenedProject {
        name: name.to_string(),
        path: path.to_string(),
        id_file: id_file.map(str::to_string),
    }
}

fn entry(id: &str, path: &str, current: bool) -> ProjectEntry {
    ProjectEntry {
        id: id.to_string(),
        name: id.to_string(),
        path: path.to_string(),
        current,
    }
}

fn shown(projects: &[ProjectEntry]) -> Vec<(&str, &str, &str, bool)> {
    projects
        .iter()
        .map(|p| (p.id.as_str(), p.name.as_str(), p.path.as_str(), p.current))
        .collect()
}

#[test]
fn projects_are_known_from_three_places() {
    let state = r#"{"projectRegistry":{
        "id-1":{"path":"/w/one/","name":"One"},
        "id-2":{"path":"/w/two"},
        "id-3":{"name":"no path"},
        "id-4":{"path":""},
        "id-5":{"path":7}
    }}"#;
    let projects = load_projects(
        "/w/now\\",
        Some(r#"{"id":"now-id"}"#.to_string()),
        Some(state),
        vec![
            opened("Other", "/w/one", Some(r#"{"id":"x"}"#)),
            opened("", "/w/three", Some(r#"{"id":"three-id"}"#)),
            opened("Four", "/w/four", Some("no json")),
        ],
    );
    assert_eq!(
        shown(&projects),
        vec![
            ("/w/four", "Four", "/w/four", false),
            ("now-id", "now", "/w/now", true),
            ("id-1", "One", "/w/one", false),
            ("three-id", "three", "/w/three", false),
            ("id-2", "two", "/w/two", false),
        ]
    );
}

#[test]
fn current_project_is_marked_wherever_it_is_known_from() {
    let state = r#"{"projectRegistry":{"id-1":{"path":"/w/one"}}}"#;
    let projects = load_projects("/w/one", None, Some(state), vec![]);
    assert_eq!(shown(&projects), vec![("id-1", "one", "/w/one", true)]);
    assert!(load_projects("", None, None, vec![]).is_empty());
    assert!(load_projects("", None, Some("[]"), vec![]).is_empty());
    let projects = load_projects("/w/one", None, Some("broken"), vec![]);
    assert_eq!(shown(&projects), vec![("/w/one", "one", "/w/one", true)]);
}

#[test]
fn ids_are_read_from_project_files() {
    assert_eq!(
        read_project_id(Some(r#"{"id":"abc"}"#)),
        Some("abc".to_string())
    );
    assert_eq!(read_project_id(Some(r#"{"id":1}"#)), None);
    assert_eq!(read_project_id(Some("{")), None);
    assert_eq!(read_project_id(None), None);
    assert_eq!(project_id_file("/w/one/"), "/w/one/.llm-wiki/project.json");
}

#[test]
fn state_is_kept_for_a_while() {
    let cache = load_app_state(None, 1000, Some("{}".to_string()));
    assert_eq!(cache.loaded_at, 1000);
    assert_eq!(cache.value, Some("{}".to_string()));
    let cache = Some(cache);
    let last = 1000 + APP_STATE_CACHE_TTL;
    assert_eq!(
        cached_app_state(&cache, last - 1),
        Some(Some("{}".to_string()))
    );
    assert_eq!(cached_app_state(&cache, last), None);
    assert_eq!(
        cached_app_state(&cache, 999),
        Some(Some("{}".to_string()))
    );
    assert_eq!(cached_app_state(&None, 0), None);
}

#[test]
fn failed_reads_keep_the_state() {
    let known = || {
        Some(CachedAppState {
            loaded_at: 1,
            value: Some("{\"a\":1}".to_string()),
        })
    };
    let kept = load_app_state(known(), 9, None);
    assert_eq!((kept.loaded_at, kept.value), (9, Some("{\"a\":1}".to_string())));
    let kept = load_app_state(known(), 9, Some("{".to_string()));
    assert_eq!(kept.value, Some("{\"a\":1}".to_string()));
    let new = load_app_state(known(), 9, Some("[1]".to_string()));
    assert_eq!(new.value, Some("[1]".to_string()));
    assert_eq!(load_app_state(None, 9, None).value, None);
}

#[test]
fn embedding_settings_are_handed_on() {
    let state = r#"{"embeddingConfig":{"model":"m"},"other":1}"#;
    assert_eq!(
        load_embedding_config(Some(state)),
        Some(r#"{"model":"m"}"#.to_string())
    );
    assert_eq!(load_embedding_config(Some("{}")), None);
    assert_eq!(load_embedding_config(Some("x")), None);
    assert_eq!(load_embedding_config(None), None);
}

#[test]
fn projects_are_found_by_id_path_or_as_current() {
    let all = || {
        vec![
            entry("one", "/w/one", false),
            entry("two", "/w/Two", true),
        ]
    };
    let find = |id: &str| resolve_project(id, all(), Platform::Other).map(|p| p.id);
    assert_eq!(find("one"), Ok("one".to_string()));
    assert_eq!(find("%2Fw%2FTwo%2F"), Ok("two".to_string()));
    assert_eq!(find("CURRENT"), Ok("two".to_string()));
    assert_eq!(find("a+b"), Err("Unknown project: a b".to_string()));
    assert_eq!(find("/w/two"), Err("Unknown project: /w/two".to_string()));
    assert_eq!(
        resolve_project("/w/two", all(), Platform::Windows).map(|p| p.id),
        Ok("two".to_string())
    );
}

#[test]
fn requests_without_project_are_about_the_current_one() {
    let id = |projects: Vec<ProjectEntry>| get_target_project(None, projects, Platform::Other).map(|p| p.id);
    assert_eq!(
        id(vec![entry("a", "/a", false), entry("b", "/b", true)]),
        Ok("b".to_string())
    );
    assert_eq!(
        id(vec![entry("a", "/a", false), entry("b", "/b", false)]),
        Ok("a".to_string())
    );
    assert_eq!(id(vec![]), Err("No project found".to_string()));
    let named = get_target_project(Some("a"), vec![entry("a", "/a", false)], Platform::Other);
    assert_eq!(named.map(|p| p.id), Ok("a".to_string()));
}

#[test]
fn project_list_is_answered() {
    let answer = handle_projects(&vec![entry("a", "/a", false), entry("b", "/b", true)]);
    assert_eq!(answer.status, 200);
    match answer.body.get("projects") {
        Some(Json::Array(items)) => {
            assert_eq!(items.len(), 2);
            assert_eq!(items[0].text_field("path"), Some("/a"));
            assert!(matches!(items[1].get("current"), Some(Json::Bool(true))));
        }
        other => panic!("no array: {other:?}"),
    }
    let current = answer.body.get("currentProject").unwrap();
    assert_eq!(current.text_field("id"), Some("b"));
    let none = handle_projects(&vec![]);
    assert!(matches!(none.body.get("currentProject"), Some(Json::Null)));
}

#[test]
fn registry_is_read_from_the_state() {
    let state = r#"{"projectRegistry":{"a":{"path":"/a","name":1},"b":7}}"#;
    let entries = read_registry(Some(state));
    assert_eq!(entries.len(), 2);
    assert_eq!(entries[0].id, "a");
    assert_eq!(entries[0].path, Some("/a".to_string()));
    assert_eq!(entries[0].name, None);
    assert_eq!(entries[1].path, None);
    assert!(read_registry(Some(r#"{"projectRegistry":[]}"#)).is_empty());
    assert!(read_registry(None).is_empty());
}

#[test]
fn projects_are_merged_by_path() {
    let registry = |id: &str, path: &str| RegistryEntry {
        id: id.to_string(),
        path: Some(path.to_string()),
        name: None,
    };
    let projects = merge_projects(
        "/b",
        Some("now".to_string()),
        vec![registry("one", "/a"), registry("two", "/a/")],
        vec![PastProject {
            name: "Past".to_string(),
            path: "/b".to_string(),
            id: None,
        }],
    );
    assert_eq!(
        shown(&projects),
        vec![("two", "a", "/a", false), ("/b", "Past", "/b", true)]
    );
}

#[test]
fn state_is_stored_or_kept() {
    let first = store_state(None, 3, Some("{}".to_string()));
    assert_eq!(first.value, Some("{}".to_string()));
    let second = store_state(Some(first), 4, None);
    assert_eq!((second.loaded_at, second.value), (4, Some("{}".to_string())));
}

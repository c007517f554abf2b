//! Which endpoint a request reaches, and the endpoints whose answer is fixed.
use crate::json;
use crate::json::{Fields, Json, JsonModel};
use crate::response;
use crate::response::{error_response, success_response, OmnimindResponse, ResponseModel};
use crate::text;
use crate::url;
use vstd::prelude::*;
use vstd::string::*;

verus! {

/// The methods that the service tells apart.
#[derive(Clone, Copy, Debug, PartialEq, Eq, Structural)]
pub enum HttpMethod {
    Get,
    Post,
    Delete,
    Options,
    Other,
}

/// The endpoints of the service.
#[derive(Clone, Copy, Debug, PartialEq, Eq, Structural)]
pub enum Endpoint {
    Health,
    Projects,
    FileContent,
    Files,
    Graph,
    VectorIndex,
    Upload,
    SaveFile,
    ExtractText,
    UpdateEmbeddings,
    ChatContext,
    Search,
    VectorUpsert,
    VectorReplace,
    VectorDelete,
    VectorClear,
    VectorOptimize,
    ExtractImages,
    Chat,
    DeleteFile,
    Preflight,
    NotFound,
    MethodNotAllowed,
}

/// A request's endpoint, the project that its path names (still percent-encoded; empty where the
/// endpoint names none), and its query.
#[derive(Debug)]
pub struct Route {
    pub endpoint: Endpoint,
    pub project: String,
    pub query: String,
}

/// Whether a text is not empty.
pub open spec fn is_filled() -> spec_fn(Seq<char>) -> bool {
    |piece: Seq<char>| piece.len() > 0
}

/// The pieces of a path that are not empty.
pub open spec fn segments(path: Seq<char>) -> Seq<Seq<char>> {
    text::split(path, '/').filter(is_filled())
}

/// Takes a path apart.
pub fn path_segments(path: &str) -> (r: Vec<String>)
    ensures
        text::views(r@) == segments(path@),
{
    let pieces = text::split_text(path, '/');
    let ghost all = text::split(path@, '/');
    let mut r: Vec<String> = Vec::new();
    let mut i: usize = 0;
    proof {
        reveal(Seq::filter);
        assert(all.take(0).filter(is_filled()) =~= Seq::empty());
        assert(text::views(r@) =~= Seq::empty());
    }
    while i < pieces.len()
        invariant
            i <= pieces@.len(),
            text::views(pieces@) == all,
            text::views(r@) == all.take(i as int).filter(is_filled()),
        decreases pieces@.len() - i,
    {
        assert(all[i as int] == pieces@[i as int]@);
        proof {
            text::lemma_filter_push(all.take(i as int), all[i as int], is_filled());
            assert(all.take(i as int).push(all[i as int]) =~= all.take(i + 1));
        }
        let ghost before = r@;
        if !pieces[i].as_str().is_empty() {
            r.push(pieces[i].clone());
            assert(text::views(r@) =~= text::views(before).push(all[i as int]));
        }
        i = i + 1;
    }
    assert(all.take(all.len() as int) =~= all);
    r
}

/// Whether the segments are `api`, `v1` and these two.
pub open spec fn is_plain(s: Seq<Seq<char>>, group: Seq<char>, verb: Seq<char>) -> bool {
    s.len() == 4 && s[0] == "api"@ && s[1] == "v1"@ && s[2] == group && s[3] == verb
}

/// Whether the segments are `api`, `v1`, the group, any one, and the verb.
pub open spec fn is_scoped(s: Seq<Seq<char>>, group: Seq<char>, verb: Seq<char>) -> bool {
    s.len() == 5 && s[0] == "api"@ && s[1] == "v1"@ && s[2] == group && s[4] == verb
}

fn plain(s: &[String], group: &str, verb: &str) -> (r: bool)
    ensures
        r == is_plain(text::views(s@), group@, verb@),
{
    s.len() == 4 && text::same_text(s[0].as_str(), "api") && text::same_text(s[1].as_str(), "v1")
        && text::same_text(s[2].as_str(), group) && text::same_text(s[3].as_str(), verb)
}

fn scoped(s: &[String], group: &str, verb: &str) -> (r: bool)
    ensures
        r == is_scoped(text::views(s@), group@, verb@),
{
    s.len() == 5 && text::same_text(s[0].as_str(), "api") && text::same_text(s[1].as_str(), "v1")
        && text::same_text(s[2].as_str(), group) && text::same_text(s[4].as_str(), verb)
}

/// The endpoint that a GET request reaches.
pub open spec fn get_endpoint(path: Seq<char>) -> Endpoint {
    let s = segments(path);
    if path == "/health"@ || path == "/api/v1/health"@ {
        Endpoint::Health
    } else if path == "/api/v1/projects"@ {
        Endpoint::Projects
    } else if path == "/api/v1/files/content"@ {
        Endpoint::FileContent
    } else if is_scoped(s, "projects"@, "files"@) {
        Endpoint::Files
    } else if is_scoped(s, "projects"@, "graph"@) {
        Endpoint::Graph
    } else if is_scoped(s, "projects"@, "vector-index"@) {
        Endpoint::VectorIndex
    } else {
        Endpoint::NotFound
    }
}

/// The endpoint that a POST request reaches.
pub open spec fn post_endpoint(path: Seq<char>) -> Endpoint {
    let s = segments(path);
    if is_plain(s, "document"@, "upload"@) {
        Endpoint::Upload
    } else if is_plain(s, "files"@, "save"@) {
        Endpoint::SaveFile
    } else if is_plain(s, "files"@, "extract-text"@) {
        Endpoint::ExtractText
    } else if is_scoped(s, "workspace"@, "update-embeddings"@) {
        Endpoint::UpdateEmbeddings
    } else if is_scoped(s, "projects"@, "chat-context"@) {
        Endpoint::ChatContext
    } else if is_scoped(s, "projects"@, "search"@) {
        Endpoint::Search
    } else if is_scoped(s, "projects"@, "vector-upsert"@) {
        Endpoint::VectorUpsert
    } else if is_scoped(s, "projects"@, "vector-replace"@) {
        Endpoint::VectorReplace
    } else if is_scoped(s, "projects"@, "vector-delete"@) {
        Endpoint::VectorDelete
    } else if is_scoped(s, "projects"@, "vector-clear"@) {
        Endpoint::VectorClear
    } else if is_scoped(s, "projects"@, "vector-optimize"@) {
        Endpoint::VectorOptimize
    } else if is_scoped(s, "projects"@, "extract-images"@) {
        Endpoint::ExtractImages
    } else if is_scoped(s, "projects"@, "chat"@) || is_scoped(s, "projects"@, "stream-chat"@) {
        Endpoint::Chat
    } else {
        Endpoint::NotFound
    }
}

/// The endpoint that a DELETE request reaches.
pub open spec fn delete_endpoint(path: Seq<char>) -> Endpoint {
    if is_plain(segments(path), "files"@, "delete"@) {
        Endpoint::DeleteFile
    } else {
        Endpoint::NotFound
    }
}

/// The endpoint that a request reaches.
pub open spec fn endpoint_of(method: HttpMethod, url: Seq<char>) -> Endpoint {
    let path = text::cut(url, '?').0;
    match method {
        HttpMethod::Get => get_endpoint(path),
        HttpMethod::Post => post_endpoint(path),
        HttpMethod::Delete => delete_endpoint(path),
        HttpMethod::Options => Endpoint::Preflight,
        HttpMethod::Other => Endpoint::MethodNotAllowed,
    }
}

/// Whether the path of an endpoint names a project.
pub open spec fn names_project(endpoint: Endpoint) -> bool {
    match endpoint {
        Endpoint::Files
        | Endpoint::Graph
        | Endpoint::VectorIndex
        | Endpoint::UpdateEmbeddings
        | Endpoint::ChatContext
        | Endpoint::Search
        | Endpoint::VectorUpsert
        | Endpoint::VectorReplace
        | Endpoint::VectorDelete
        | Endpoint::VectorClear
        | Endpoint::VectorOptimize
        | Endpoint::ExtractImages
        | Endpoint::Chat => true,
        _ => false,
    }
}

/// The project that the path of a request names.
pub open spec fn project_of(endpoint: Endpoint, url: Seq<char>) -> Seq<char> {
    if names_project(endpoint) {
        segments(text::cut(url, '?').0)[3]
    } else {
        Seq::empty()
    }
}

/// Finds the endpoint that a GET request reaches.
pub fn handle_get(path: &str) -> (r: Endpoint)
    ensures
        r == get_endpoint(path@),
{
    let s = path_segments(path);
    if text::same_text(path, "/health") || text::same_text(path, "/api/v1/health") {
        Endpoint::Health
    } else if text::same_text(path, "/api/v1/projects") {
        Endpoint::Projects
    } else if text::same_text(path, "/api/v1/files/content") {
        Endpoint::FileContent
    } else if scoped(&s, "projects", "files") {
        Endpoint::Files
    } else if scoped(&s, "projects", "graph") {
        Endpoint::Graph
    } else if scoped(&s, "projects", "vector-index") {
        Endpoint::VectorIndex
    } else {
        Endpoint::NotFound
    }
}

/// Finds the endpoint that a POST request reaches.
pub fn handle_post(path: &str) -> (r: Endpoint)
    ensures
        r == post_endpoint(path@),
{
    let s = path_segments(path);
    if plain(&s, "document", "upload") {
        Endpoint::Upload
    } else if plain(&s, "files", "save") {
        Endpoint::SaveFile
    } else if plain(&s, "files", "extract-text") {
        Endpoint::ExtractText
    } else if scoped(&s, "workspace", "update-embeddings") {
        Endpoint::UpdateEmbeddings
    } else if scoped(&s, "projects", "chat-context") {
        Endpoint::ChatContext
    } else if scoped(&s, "projects", "search") {
        Endpoint::Search
    } else if scoped(&s, "projects", "vector-upsert") {
        Endpoint::VectorUpsert
    } else if scoped(&s, "projects", "vector-replace") {
        Endpoint::VectorReplace
    } else if scoped(&s, "projects", "vector-delete") {
        Endpoint::VectorDelete
    } else if scoped(&s, "projects", "vector-clear") {
        Endpoint::VectorClear
    } else if scoped(&s, "projects", "vector-optimize") {
        Endpoint::VectorOptimize
    } else if scoped(&s, "projects", "extract-images") {
        Endpoint::ExtractImages
    } else if scoped(&s, "projects", "chat") || scoped(&s, "projects", "stream-chat") {
        Endpoint::Chat
    } else {
        Endpoint::NotFound
    }
}

/// Finds the endpoint that a DELETE request reaches.
pub fn handle_delete(path: &str) -> (r: Endpoint)
    ensures
        r == delete_endpoint(path@),
{
    let s = path_segments(path);
    if plain(&s, "files", "delete") {
        Endpoint::DeleteFile
    } else {
        Endpoint::NotFound
    }
}

/// Whether the path of an endpoint names a project.
fn has_project(endpoint: Endpoint) -> (r: bool)
    ensures
        r == names_project(endpoint),
{
    match endpoint {
        Endpoint::Files
        | Endpoint::Graph
        | Endpoint::VectorIndex
        | Endpoint::UpdateEmbeddings
        | Endpoint::ChatContext
        | Endpoint::Search
        | Endpoint::VectorUpsert
        | Endpoint::VectorReplace
        | Endpoint::VectorDelete
        | Endpoint::VectorClear
        | Endpoint::VectorOptimize
        | Endpoint::ExtractImages
        | Endpoint::Chat => true,
        _ => false,
    }
}

/// Finds the endpoint that a request reaches.
pub fn handle_request(method: HttpMethod, url: &str) -> (r: Route)
    ensures
        r.endpoint == endpoint_of(method, url@),
        r.project@ == project_of(r.endpoint, url@),
        r.query@ == text::cut(url@, '?').1,
{
    let (path, query) = url::split_url(url);
    let endpoint = match method {
        HttpMethod::Get => handle_get(path.as_str()),
        HttpMethod::Post => handle_post(path.as_str()),
        HttpMethod::Delete => handle_delete(path.as_str()),
        HttpMethod::Options => Endpoint::Preflight,
        HttpMethod::Other => Endpoint::MethodNotAllowed,
    };
    let project = if has_project(endpoint) {
        let s = path_segments(path.as_str());
        assert(text::views(s@).len() == 5);
        assert(text::views(s@)[3] == s@[3]@);
        s[3].clone()
    } else {
        String::new()
    };
    Route { endpoint, project, query }
}

/// A GET request reaches no endpoint that changes anything.
pub proof fn get_only_reads(url: Seq<char>)
    ensures
        match endpoint_of(HttpMethod::Get, url) {
            Endpoint::Health
            | Endpoint::Projects
            | Endpoint::FileContent
            | Endpoint::Files
            | Endpoint::Graph
            | Endpoint::VectorIndex
            | Endpoint::NotFound => true,
            _ => false,
        },
{
}

/// Files are removed at the request of the method DELETE alone.
pub proof fn only_delete_removes_files(method: HttpMethod, url: Seq<char>)
    requires
        endpoint_of(method, url) == Endpoint::DeleteFile,
    ensures
        method == HttpMethod::Delete,
{
}

/// The query of a URL does not decide which endpoint is reached.
pub proof fn query_does_not_route(method: HttpMethod, path: Seq<char>, query: Seq<char>)
    requires
        !path.contains('?'),
    ensures
        endpoint_of(method, path.push('?') + query) == endpoint_of(method, path),
{
    let url = path.push('?') + query;
    text::first_index_bounds(url, '?');
    text::first_index_bounds(path, '?');
    let i = text::first_index(url, '?');
    let k = text::first_index(path, '?');
    if k < path.len() {
        assert(path.contains(path[k]));
    }
    if i < path.len() {
        assert(path[i] == url[i]);
        assert(path.contains(path[i]));
    }
    if i > path.len() {
        assert(url[path.len() as int] == '?');
    }
    assert(url.take(path.len() as int) =~= path);
}

/// The answer of the health endpoint.
pub open spec fn health(version: Seq<char>) -> ResponseModel {
    response::success(
        json::no_fields().push(("ok"@, JsonModel::Bool(true))).push(
            ("service"@, JsonModel::Text("OmniMind-Wiki-Core"@)),
        ).push(("mode"@, JsonModel::Text("server-only"@))).push(
            ("version"@, JsonModel::Text(version)),
        ),
    )
}

/// The answer of an endpoint that needs no more than its name to answer.
pub open spec fn fixed(endpoint: Endpoint, version: Seq<char>) -> Option<ResponseModel> {
    match endpoint {
        Endpoint::Health => Some(health(version)),
        Endpoint::Chat => Some(
            response::failure(
                501,
                "CHAT_NOT_IMPLEMENTED"@,
                "LLM Wiki server-only 当前只提供知识上下文构建，不直接生成最终聊天回复。"@,
            ),
        ),
        Endpoint::Preflight => Some(ResponseModel { status: 204, body: JsonModel::Null }),
        Endpoint::NotFound => Some(response::failure(404, "NOT_FOUND"@, "Not found"@)),
        Endpoint::MethodNotAllowed => Some(
            response::failure(405, "METHOD_NOT_ALLOWED"@, "Method not allowed"@),
        ),
        _ => None,
    }
}

/// A chat is never answered with a reply, at once or as a stream: every request for one is
/// refused as not implemented.
pub proof fn chat_is_not_implemented(url: Seq<char>, version: Seq<char>)
    requires
        is_scoped(segments(text::cut(url, '?').0), "projects"@, "chat"@) || is_scoped(
            segments(text::cut(url, '?').0),
            "projects"@,
            "stream-chat"@,
        ),
    ensures
        endpoint_of(HttpMethod::Post, url) == Endpoint::Chat,
        fixed(Endpoint::Chat, version) matches Some(answer) && answer.status == 501,
{
    reveal_strlit("chat");
    reveal_strlit("stream-chat");
    reveal_strlit("update-embeddings");
    reveal_strlit("chat-context");
    reveal_strlit("search");
    reveal_strlit("vector-upsert");
    reveal_strlit("vector-replace");
    reveal_strlit("vector-delete");
    reveal_strlit("vector-clear");
    reveal_strlit("vector-optimize");
    reveal_strlit("extract-images");
    assert("chat"@.len() == 4);
    assert("stream-chat"@.len() == 11 && "stream-chat"@[0] == 's');
}

/// Answers a request whose endpoint needs no more than its name to answer.
pub fn fixed_response(endpoint: Endpoint, version: &str) -> (r: Option<OmnimindResponse>)
    ensures
        match r {
            Some(answer) => fixed(endpoint, version@) == Some(answer@),
            None => fixed(endpoint, version@) is None,
        },
{
    match endpoint {
        Endpoint::Health => Some(
            success_response(
                Fields::new().and("ok", Json::Bool(true)).and(
                    "service",
                    Json::text("OmniMind-Wiki-Core"),
                ).and("mode", Json::text("server-only")).and("version", Json::text(version)),
            ),
        ),
        Endpoint::Chat => Some(
            error_response(
                501,
                "CHAT_NOT_IMPLEMENTED",
                "LLM Wiki server-only 当前只提供知识上下文构建，不直接生成最终聊天回复。",
            ),
        ),
        Endpoint::Preflight => Some(OmnimindResponse { status: 204, body: Json::Null }),
        Endpoint::NotFound => Some(error_response(404, "NOT_FOUND", "Not found")),
        Endpoint::MethodNotAllowed => Some(
            error_response(405, "METHOD_NOT_ALLOWED", "Method not allowed"),
        ),
        _ => None,
    }
}

/// The path of some names, each behind a separator.
pub open spec fn path_of(names: Seq<Seq<char>>) -> Seq<char>
    decreases names.len(),
{
    if names.len() == 0 {
        Seq::empty()
    } else {
        path_of(names.drop_last()) + seq!['/'] + names.last()
    }
}

/// The pieces of a path are the names that it is made of; empty ones, and separators at the end,
/// do not count.
pub proof fn path_is_taken_apart(names: Seq<Seq<char>>)
    requires
        forall|i: int|
            0 <= i < names.len() ==> (#[trigger] names[i]).len() > 0 && !names[i].contains('/'),
    ensures
        segments(path_of(names)) == names,
        segments(path_of(names) + seq!['/']) == names,
        segments(seq!['/'] + path_of(names)) == names,
    decreases names.len(),
{
    let keep = is_filled();
    let none = Seq::<char>::empty();
    let path = path_of(names);
    text::split_keeps_whole(none, '/');
    lemma_filter_one(none);
    if names.len() == 0 {
        assert(segments(path) =~= names);
    } else {
        let front = names.drop_last();
        let last = names.last();
        assert forall|i: int| 0 <= i < front.len() implies (#[trigger] front[i]).len() > 0
            && !front[i].contains('/') by {
            assert(front[i] == names[i]);
        }
        assert(names[names.len() - 1] == last);
        path_is_taken_apart(front);
        assert(path =~= path_of(front).push('/') + last);
        text::split_parts_at_separator(path_of(front), last, '/');
        text::split_keeps_whole(last, '/');
        lemma_filter_two(text::split(path_of(front), '/'), seq![last]);
        lemma_filter_one(last);
        assert(front + seq![last] =~= names);
    }
    assert(path + seq!['/'] =~= path.push('/') + none);
    text::split_parts_at_separator(path, none, '/');
    lemma_filter_two(text::split(path, '/'), seq![none]);
    assert(names + Seq::empty() =~= names);
    assert(seq!['/'] + path =~= none.push('/') + path);
    text::split_parts_at_separator(none, path, '/');
    lemma_filter_two(seq![none], text::split(path, '/'));
    assert(Seq::empty() + names =~= names);
}

proof fn lemma_filter_one(piece: Seq<char>)
    ensures
        seq![piece].filter(is_filled()) == (if piece.len() > 0 {
            seq![piece]
        } else {
            Seq::empty()
        }),
{
    let none = Seq::<Seq<char>>::empty();
    assert(none.filter(is_filled()) =~= none) by {
        reveal(Seq::filter);
    }
    text::lemma_filter_push(none, piece, is_filled());
    assert(none.push(piece) =~= seq![piece]);
}

proof fn lemma_filter_two(a: Seq<Seq<char>>, b: Seq<Seq<char>>)
    ensures
        (a + b).filter(is_filled()) == a.filter(is_filled()) + b.filter(is_filled()),
    decreases b.len(),
{
    let keep = is_filled();
    if b.len() == 0 {
        assert(a + b =~= a);
        assert(b.filter(keep) =~= Seq::empty()) by {
            reveal(Seq::filter);
        }
        assert(a.filter(keep) + b.filter(keep) =~= a.filter(keep));
    } else {
        let front = b.drop_last();
        lemma_filter_two(a, front);
        text::lemma_filter_push(a + front, b.last(), keep);
        text::lemma_filter_push(front, b.last(), keep);
        assert((a + front).push(b.last()) =~= a + b);
        assert(front.push(b.last()) =~= b);
        assert((a + b).filter(keep) =~= a.filter(keep) + b.filter(keep));
    }
}

/// Whether a URL has the path `/api/v1`, a group, a name and a verb, with separators between them,
/// whatever its query.
pub open spec fn is_at(url: Seq<char>, group: Seq<char>, name: Seq<char>, verb: Seq<char>) -> bool {
    let path = text::cut(url, '?').0;
    segments(path) == seq!["api"@, "v1"@, group, name, verb]
}

/// Each endpoint of a project is reached by its method and verb, and the path names the project.
pub proof fn project_endpoints_are_reached(url: Seq<char>, name: Seq<char>)
    ensures
        is_at(url, "projects"@, name, "chat-context"@) ==> endpoint_of(HttpMethod::Post, url)
            == Endpoint::ChatContext && project_of(Endpoint::ChatContext, url) == name,
        is_at(url, "projects"@, name, "search"@) ==> endpoint_of(HttpMethod::Post, url)
            == Endpoint::Search && project_of(Endpoint::Search, url) == name,
        is_at(url, "projects"@, name, "vector-upsert"@) ==> endpoint_of(HttpMethod::Post, url)
            == Endpoint::VectorUpsert && project_of(Endpoint::VectorUpsert, url) == name,
        is_at(url, "projects"@, name, "vector-replace"@) ==> endpoint_of(HttpMethod::Post, url)
            == Endpoint::VectorReplace && project_of(Endpoint::VectorReplace, url) == name,
        is_at(url, "projects"@, name, "vector-delete"@) ==> endpoint_of(HttpMethod::Post, url)
            == Endpoint::VectorDelete && project_of(Endpoint::VectorDelete, url) == name,
        is_at(url, "projects"@, name, "vector-clear"@) ==> endpoint_of(HttpMethod::Post, url)
            == Endpoint::VectorClear && project_of(Endpoint::VectorClear, url) == name,
        is_at(url, "projects"@, name, "vector-optimize"@) ==> endpoint_of(HttpMethod::Post, url)
            == Endpoint::VectorOptimize && project_of(Endpoint::VectorOptimize, url) == name,
        is_at(url, "projects"@, name, "extract-images"@) ==> endpoint_of(HttpMethod::Post, url)
            == Endpoint::ExtractImages && project_of(Endpoint::ExtractImages, url) == name,
        is_at(url, "projects"@, name, "chat"@) ==> endpoint_of(HttpMethod::Post, url)
            == Endpoint::Chat && project_of(Endpoint::Chat, url) == name,
        is_at(url, "projects"@, name, "stream-chat"@) ==> endpoint_of(HttpMethod::Post, url)
            == Endpoint::Chat && project_of(Endpoint::Chat, url) == name,
        is_at(url, "projects"@, name, "files"@)
            ==> endpoint_of(HttpMethod::Get, url) == Endpoint::Files && project_of(
            Endpoint::Files,
            url,
        ) == name,
        is_at(url, "projects"@, name, "graph"@)
            ==> endpoint_of(HttpMethod::Get, url) == Endpoint::Graph && project_of(
            Endpoint::Graph,
            url,
        ) == name,
        is_at(url, "projects"@, name, "vector-index"@)
            ==> endpoint_of(HttpMethod::Get, url) == Endpoint::VectorIndex && project_of(
            Endpoint::VectorIndex,
            url,
        ) == name,
        is_at(url, "workspace"@, name, "update-embeddings"@) ==> endpoint_of(HttpMethod::Post, url)
            == Endpoint::UpdateEmbeddings && project_of(Endpoint::UpdateEmbeddings, url) == name,
{
    reveal_strlit("chat-context");
    reveal_strlit("search");
    reveal_strlit("vector-upsert");
    reveal_strlit("vector-replace");
    reveal_strlit("vector-delete");
    reveal_strlit("vector-clear");
    reveal_strlit("vector-optimize");
    reveal_strlit("extract-images");
    reveal_strlit("chat");
    reveal_strlit("stream-chat");
    reveal_strlit("files");
    reveal_strlit("graph");
    reveal_strlit("vector-index");
    reveal_strlit("update-embeddings");
    reveal_strlit("projects");
    reveal_strlit("workspace");
    reveal_strlit("document");
    reveal_strlit("upload");
    reveal_strlit("save");
    reveal_strlit("extract-text");
    reveal_strlit("api");
    reveal_strlit("v1");
    reveal_strlit("health");
    reveal_strlit("content");
    assert("chat-context"@.len() == 12 && "search"@.len() == 6 && "vector-upsert"@.len() == 13);
    assert("vector-replace"@.len() == 14);
    assert("vector-delete"@.len() == 13);
    assert("vector-clear"@.len() == 12);
    assert("vector-optimize"@.len() == 15 && "extract-images"@.len() == 14 && "chat"@.len() == 4);
    assert("stream-chat"@.len() == 11 && "files"@.len() == 5 && "graph"@.len() == 5);
    assert("vector-index"@.len() == 12);
    assert("update-embeddings"@.len() == 17);
    assert("projects"@.len() == 8);
    assert("workspace"@.len() == 9 && "document"@.len() == 8 && "upload"@.len() == 6);
    assert("save"@.len() == 4 && "extract-text"@.len() == 12 && "api"@.len() == 3);
    assert("v1"@.len() == 2 && "health"@.len() == 6 && "content"@.len() == 7);
    assert("chat-context"@[7] == 'n' && "vector-clear"@[7] == 'c' && "vector-index"@[7] == 'i');
    assert("extract-text"@[7] == '-' && "search"@[0] == 's' && "upload"@[0] == 'u');
    assert("health"@[0] == 'h' && "vector-upsert"@[7] == 'u' && "vector-delete"@[7] == 'd');
    assert("vector-replace"@[0] == 'v' && "extract-images"@[0] == 'e' && "chat"@[0] == 'c');
    assert("save"@[0] == 's' && "files"@[0] == 'f' && "graph"@[0] == 'g');
    assert("projects"@[0] == 'p' && "document"@[0] == 'd');
    lemma_fixed_paths();
    let path = text::cut(url, '?').0;
    let s = segments(path);
}

/// The paths without a project have their pieces.
proof fn lemma_fixed_paths()
    ensures
        segments("/health"@).len() == 1,
        segments("/api/v1/health"@).len() == 3,
        segments("/api/v1/projects"@).len() == 3,
        segments("/api/v1/files/content"@).len() == 4,
{
    reveal_strlit("/health");
    reveal_strlit("/api/v1/health");
    reveal_strlit("/api/v1/projects");
    reveal_strlit("/api/v1/files/content");
    reveal_strlit("health");
    reveal_strlit("api");
    reveal_strlit("v1");
    reveal_strlit("projects");
    reveal_strlit("files");
    reveal_strlit("content");
    let one = seq!["health"@];
    let health = seq!["api"@, "v1"@, "health"@];
    let projects = seq!["api"@, "v1"@, "projects"@];
    let content = seq!["api"@, "v1"@, "files"@, "content"@];
    reveal_with_fuel(path_of, 6);
    assert(path_of(one) =~= "/health"@) by {
        assert(one.drop_last() =~= Seq::empty());
    }
    let a = seq!["api"@];
    let b = seq!["api"@, "v1"@];
    let c = seq!["api"@, "v1"@, "files"@];
    assert(a.drop_last() =~= Seq::empty());
    assert(b.drop_last() =~= a);
    assert(c.drop_last() =~= b);
    assert(health.drop_last() =~= b);
    assert(projects.drop_last() =~= b);
    assert(content.drop_last() =~= c);
    assert(path_of(health) =~= "/api/v1/health"@);
    assert(path_of(projects) =~= "/api/v1/projects"@);
    assert(path_of(content) =~= "/api/v1/files/content"@);
    path_is_taken_apart(one);
    path_is_taken_apart(health);
    path_is_taken_apart(projects);
    path_is_taken_apart(content);
}

/// The endpoints without a project are reached by these paths alone, whatever the query.
pub proof fn plain_endpoints_are_reached(url: Seq<char>)
    ensures
        ({
            let path = text::cut(url, '?').0;
            let s = segments(path);
            &&& path == "/health"@ || path == "/api/v1/health"@ ==> endpoint_of(
                HttpMethod::Get,
                url,
            ) == Endpoint::Health
            &&& path == "/api/v1/projects"@ ==> endpoint_of(HttpMethod::Get, url)
                == Endpoint::Projects
            &&& path == "/api/v1/files/content"@ ==> endpoint_of(HttpMethod::Get, url)
                == Endpoint::FileContent
            &&& s == seq!["api"@, "v1"@, "document"@, "upload"@] ==> endpoint_of(
                HttpMethod::Post,
                url,
            ) == Endpoint::Upload
            &&& s == seq!["api"@, "v1"@, "files"@, "save"@] ==> endpoint_of(HttpMethod::Post, url)
                == Endpoint::SaveFile
            &&& s == seq!["api"@, "v1"@, "files"@, "extract-text"@] ==> endpoint_of(
                HttpMethod::Post,
                url,
            ) == Endpoint::ExtractText
            &&& s == seq!["api"@, "v1"@, "files"@, "delete"@] <==> endpoint_of(
                HttpMethod::Delete,
                url,
            ) == Endpoint::DeleteFile
            &&& endpoint_of(HttpMethod::Options, url) == Endpoint::Preflight
            &&& endpoint_of(HttpMethod::Other, url) == Endpoint::MethodNotAllowed
            &&& s.len() != 4 && s.len() != 5 ==> endpoint_of(HttpMethod::Post, url)
                == Endpoint::NotFound
        }),
{
    reveal_strlit("document");
    reveal_strlit("upload");
    reveal_strlit("files");
    reveal_strlit("save");
    reveal_strlit("extract-text");
    reveal_strlit("projects");
    reveal_strlit("workspace");
    reveal_strlit("/health");
    reveal_strlit("/api/v1/health");
    reveal_strlit("/api/v1/projects");
    reveal_strlit("/api/v1/files/content");
    assert("document"@.len() == 8 && "upload"@.len() == 6 && "files"@.len() == 5);
    assert("save"@.len() == 4 && "extract-text"@.len() == 12 && "projects"@.len() == 8);
    assert("workspace"@.len() == 9 && "/health"@.len() == 7 && "/api/v1/health"@.len() == 14);
    assert("/api/v1/projects"@.len() == 16);
    assert("/api/v1/files/content"@.len() == 21);
    assert("document"@[0] == 'd');
    assert("projects"@[0] == 'p');
    let s = segments(text::cut(url, '?').0);
    if s == seq!["api"@, "v1"@, "files"@, "delete"@] {
        assert(s[2] == "files"@ && s[3] == "delete"@);
    }
    if endpoint_of(HttpMethod::Delete, url) == Endpoint::DeleteFile {
        assert(s =~= seq!["api"@, "v1"@, "files"@, "delete"@]);
    }
    if s == seq!["api"@, "v1"@, "document"@, "upload"@] {
        assert(s[0] == "api"@ && s[1] == "v1"@ && s[2] == "document"@ && s[3] == "upload"@);
    }
    if s == seq!["api"@, "v1"@, "files"@, "save"@] {
        assert(s[0] == "api"@ && s[1] == "v1"@ && s[2] == "files"@ && s[3] == "save"@);
    }
    if s == seq!["api"@, "v1"@, "files"@, "extract-text"@] {
        assert(s[0] == "api"@ && s[1] == "v1"@ && s[2] == "files"@ && s[3] == "extract-text"@);
    }
}

/// An endpoint that changes a project is reached by a POST request to its own path alone.
pub proof fn endpoints_have_one_path(method: HttpMethod, url: Seq<char>)
    ensures
        ({
            let s = segments(text::cut(url, '?').0);
            let verb = match endpoint_of(method, url) {
                Endpoint::ChatContext => Some("chat-context"@),
                Endpoint::Search => Some("search"@),
                Endpoint::VectorUpsert => Some("vector-upsert"@),
                Endpoint::VectorReplace => Some("vector-replace"@),
                Endpoint::VectorDelete => Some("vector-delete"@),
                Endpoint::VectorClear => Some("vector-clear"@),
                Endpoint::VectorOptimize => Some("vector-optimize"@),
                Endpoint::ExtractImages => Some("extract-images"@),
                _ => None,
            };
            &&& verb matches Some(verb) ==> method == HttpMethod::Post && s.len() == 5 && s[0]
                == "api"@ && s[1] == "v1"@ && s[2] == "projects"@ && s[4] == verb
            &&& endpoint_of(method, url) == Endpoint::UpdateEmbeddings ==> method
                == HttpMethod::Post && s.len() == 5 && s[2] == "workspace"@ && s[4]
                == "update-embeddings"@
            &&& endpoint_of(method, url) == Endpoint::Chat ==> method == HttpMethod::Post && s.len()
                == 5 && (s[4] == "chat"@ || s[4] == "stream-chat"@)
            &&& endpoint_of(method, url) == Endpoint::Upload ==> method == HttpMethod::Post && s
                == seq!["api"@, "v1"@, "document"@, "upload"@]
            &&& endpoint_of(method, url) == Endpoint::SaveFile ==> method == HttpMethod::Post && s
                == seq!["api"@, "v1"@, "files"@, "save"@]
        }),
{
    let s = segments(text::cut(url, '?').0);
    if endpoint_of(method, url) == Endpoint::Upload {
        assert(s =~= seq!["api"@, "v1"@, "document"@, "upload"@]);
    }
    if endpoint_of(method, url) == Endpoint::SaveFile {
        assert(s =~= seq!["api"@, "v1"@, "files"@, "save"@]);
    }
}

/// An endpoint that needs no more than its name is answered with its own status: an unknown path
/// with 404, an unknown method with 405, and a preflight with 204 and no body. Every other
/// endpoint is not answered so.
pub proof fn fixed_answers_are_told(version: Seq<char>, endpoint: Endpoint)
    ensures
        fixed(Endpoint::NotFound, version) matches Some(answer) && response::tells_error(
            answer,
            404,
            "NOT_FOUND"@,
            "Not found"@,
        ),
        fixed(Endpoint::MethodNotAllowed, version) matches Some(answer) && response::tells_error(
            answer,
            405,
            "METHOD_NOT_ALLOWED"@,
            "Method not allowed"@,
        ),
        fixed(Endpoint::Preflight, version) matches Some(answer) && answer.status == 204
            && answer.body is Null,
        fixed(Endpoint::Chat, version) matches Some(answer) && answer.status == 501
            && answer.body.field("ok"@) == Some(JsonModel::Bool(false)),
        fixed(Endpoint::Health, version) == Some(health(version)),
        fixed(endpoint, version) is Some <==> endpoint == Endpoint::NotFound || endpoint
            == Endpoint::MethodNotAllowed || endpoint == Endpoint::Preflight || endpoint
            == Endpoint::Chat || endpoint == Endpoint::Health,
{
    response::errors_are_told(404, "NOT_FOUND"@, "Not found"@);
    response::errors_are_told(405, "METHOD_NOT_ALLOWED"@, "Method not allowed"@);
    response::errors_are_told(
        501,
        "CHAT_NOT_IMPLEMENTED"@,
        "LLM Wiki server-only 当前只提供知识上下文构建，不直接生成最终聊天回复。"@,
    );
}

/// The health endpoint tells the name of the service, its mode and its version.
pub proof fn health_is_told(version: Seq<char>)
    ensures
        ({
            let value = health(version).body;
            &&& value->Object_0.len() == 4
            &&& value.field("ok"@) == Some(JsonModel::Bool(true))
            &&& value.field("service"@) == Some(JsonModel::Text("OmniMind-Wiki-Core"@))
            &&& value.field("mode"@) == Some(JsonModel::Text("server-only"@))
            &&& value.field("version"@) == Some(JsonModel::Text(version))
        }),
        health(version).status == 200,
{
    reveal_strlit("ok");
    reveal_strlit("service");
    reveal_strlit("mode");
    reveal_strlit("version");
    assert("ok"@.len() == 2 && "service"@.len() == 7 && "mode"@.len() == 4);
    assert("version"@.len() == 7 && "service"@[0] == 's' && "version"@[0] == 'v');
    let fields = (health(version).body)->Object_0;
    assert(fields[0] == ("ok"@, JsonModel::Bool(true)));
    assert(fields[1] == ("service"@, JsonModel::Text("OmniMind-Wiki-Core"@)));
    assert(fields[2] == ("mode"@, JsonModel::Text("server-only"@)));
    assert(fields[3] == ("version"@, JsonModel::Text(version)));
    json::each_field_is_read(fields);
}

/// An endpoint that reads is reached by its own path alone: by a GET request, or, where a document
/// is sent to be read, by a POST request.
pub proof fn reading_endpoints_have_own_paths(method: HttpMethod, url: Seq<char>)
    ensures
        ({
            let path = text::cut(url, '?').0;
            let s = segments(path);
            let endpoint = endpoint_of(method, url);
            let verb = match endpoint {
                Endpoint::Files => Some("files"@),
                Endpoint::Graph => Some("graph"@),
                Endpoint::VectorIndex => Some("vector-index"@),
                _ => None,
            };
            &&& verb matches Some(verb) ==> method == HttpMethod::Get && s.len() == 5 && s[0]
                == "api"@ && s[1] == "v1"@ && s[2] == "projects"@ && s[4] == verb
            &&& endpoint == Endpoint::Health ==> method == HttpMethod::Get && (path == "/health"@
                || path == "/api/v1/health"@)
            &&& endpoint == Endpoint::Projects ==> method == HttpMethod::Get && path
                == "/api/v1/projects"@
            &&& endpoint == Endpoint::FileContent ==> method == HttpMethod::Get && path
                == "/api/v1/files/content"@
            &&& endpoint == Endpoint::ExtractText ==> method == HttpMethod::Post && s
                == seq!["api"@, "v1"@, "files"@, "extract-text"@]
            &&& endpoint == Endpoint::DeleteFile ==> method == HttpMethod::Delete
            &&& endpoint == Endpoint::Preflight <==> method == HttpMethod::Options
            &&& endpoint == Endpoint::MethodNotAllowed <==> method == HttpMethod::Other
            &&& endpoint == Endpoint::UpdateEmbeddings || endpoint == Endpoint::Chat ==> s[0]
                == "api"@ && s[1] == "v1"@
            &&& endpoint == Endpoint::Chat ==> s[2] == "projects"@
        }),
{
    let s = segments(text::cut(url, '?').0);
    if endpoint_of(method, url) == Endpoint::ExtractText {
        assert(s =~= seq!["api"@, "v1"@, "files"@, "extract-text"@]);
    }
}

/// A request to an endpoint without a project names none.
pub proof fn other_endpoints_name_no_project(url: Seq<char>)
    ensures
        project_of(Endpoint::Health, url).len() == 0,
        project_of(Endpoint::Projects, url).len() == 0,
        project_of(Endpoint::FileContent, url).len() == 0,
        project_of(Endpoint::Upload, url).len() == 0,
        project_of(Endpoint::SaveFile, url).len() == 0,
        project_of(Endpoint::ExtractText, url).len() == 0,
        project_of(Endpoint::DeleteFile, url).len() == 0,
        project_of(Endpoint::Preflight, url).len() == 0,
        project_of(Endpoint::NotFound, url).len() == 0,
        project_of(Endpoint::MethodNotAllowed, url).len() == 0,
{
}

} // verus!

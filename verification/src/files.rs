//! The endpoints on the files of a project: listing, reading, saving and deleting them.
use crate::json;
use crate::json::{Fields, Json, JsonModel};
use crate::listing;
use crate::listing::{ApiFileNode, FileModel, ListStep, Settings};
use crate::paths;
use crate::projects;
use crate::projects::{ProjectEntry, ProjectModel};
use crate::response;
use crate::response::{OmnimindResponse, ResponseModel};
use crate::search;
use crate::startup::Platform;
use crate::text;
use crate::url;
use vstd::prelude::*;
use vstd::string::*;
use vstd::utf8::*;

verus! {

/// What a path leads to, symbolic links followed.
#[derive(Clone, Copy, Debug, PartialEq, Eq, Structural)]
pub enum PathKind {
    Missing,
    Directory,
    File,
}

/// The response to a request for a project that is not known.
pub open spec fn not_found(message: Seq<char>) -> ResponseModel {
    response::failure(404, "PROJECT_NOT_FOUND"@, message)
}

/// Answers a request for a project that is not known.
pub fn project_not_found(message: &str) -> (r: OmnimindResponse)
    ensures
        r@ == not_found(message@),
{
    response::error_response(404, "PROJECT_NOT_FOUND", message)
}

/// Takes up a request about a project, or refuses it where the project is not known: then
/// nothing of an index or a wiki is touched.
pub fn known_project(project: Result<ProjectEntry, String>) -> (r: Result<
    ProjectEntry,
    OmnimindResponse,
>)
    ensures
        match project {
            Ok(project) => r == Ok::<ProjectEntry, OmnimindResponse>(project),
            Err(message) => r matches Err(answer) && answer@ == not_found(message@),
        },
{
    match project {
        Ok(project) => Ok(project),
        Err(message) => Err(project_not_found(message.as_str())),
    }
}

/// The path in a project that a request names, or why it is refused.
pub open spec fn path_in(
    platform: Platform,
    target: Result<ProjectModel, Seq<char>>,
    rel: Seq<char>,
) -> Result<Seq<char>, ResponseModel> {
    match target {
        Err(message) => Err(not_found(message)),
        Ok(project) => match paths::inside(platform, project.path, rel) {
            Ok(path) => Ok(path),
            Err(message) => Err(response::failure(400, "INVALID_PATH"@, message)),
        },
    }
}

/// Finds the path in a project that a request names.
fn resolve_in(platform: Platform, target: Result<ProjectEntry, String>, rel: &str) -> (r: Result<
    String,
    OmnimindResponse,
>)
    ensures
        match r {
            Ok(path) => path_in(platform, projects::result_view(target), rel@) == Ok::<
                Seq<char>,
                ResponseModel,
            >(path@),
            Err(answer) => path_in(platform, projects::result_view(target), rel@) == Err::<
                Seq<char>,
                ResponseModel,
            >(answer@),
        },
{
    let project = match target {
        Ok(project) => project,
        Err(message) => {
            return Err(project_not_found(message.as_str()));
        },
    };
    match paths::safe_join(platform, project.path.as_str(), rel) {
        Ok(path) => Ok(path),
        Err(message) => Err(response::error_response(400, "INVALID_PATH", message.as_str())),
    }
}

/// A request to save a file.
pub struct SaveFileRequest {
    pub project_id: Option<String>,
    pub path: String,
    pub content: String,
}

/// A request to delete a file or a directory.
pub struct DeleteFileRequest {
    pub project_id: Option<String>,
    pub path: String,
}

/// Whether the project that a request names can be percent-decoded.
pub open spec fn id_decodable(project_id: Option<String>) -> bool {
    project_id matches Some(id) ==> url::decodable(id@)
}

/// A file that is to be saved.
pub struct SavePlan {
    pub path: String,
    pub content: String,
}

/// Finds the path that a request saves to, or refuses the request.
pub fn handle_save_file(
    request: Result<SaveFileRequest, String>,
    projects: Vec<ProjectEntry>,
    platform: Platform,
) -> (r: Result<SavePlan, OmnimindResponse>)
    requires
        request matches Ok(request) ==> id_decodable(request.project_id),
    ensures
        match request {
            Err(cause) => r matches Err(answer) && answer@ == response::invalid_json(cause@),
            Ok(request) => {
                let path = path_in(
                    platform,
                    projects::target(
                        text::optional_text(request.project_id),
                        projects::project_views(projects@),
                        platform,
                    ),
                    request.path@,
                );
                match r {
                    Ok(plan) => path == Ok::<Seq<char>, ResponseModel>(plan.path@) && plan.content
                        == request.content,
                    Err(answer) => path == Err::<Seq<char>, ResponseModel>(answer@),
                }
            },
        },
{
    let request = match request {
        Ok(request) => request,
        Err(cause) => {
            return Err(response::invalid_json_response(cause.as_str()));
        },
    };
    let target = projects::get_target_project(
        text::optional_str(&request.project_id),
        projects,
        platform,
    );
    match resolve_in(platform, target, request.path.as_str()) {
        Ok(path) => Ok(SavePlan { path, content: request.content }),
        Err(answer) => Err(answer),
    }
}

/// What became of a file that was to be saved.
pub enum SaveOutcome {
    /// Its directory could not be made.
    NoDirectory(String),
    /// It could not be written.
    NotWritten(String),
    Saved,
}

/// Answers a request to save a file.
pub fn save_response(outcome: SaveOutcome) -> (r: OmnimindResponse)
    ensures
        r@ == (match outcome {
            SaveOutcome::NoDirectory(cause) => response::failure(
                500,
                "CREATE_DIR_FAILED"@,
                "Failed to create directory: "@ + cause@,
            ),
            SaveOutcome::NotWritten(cause) => response::failure(
                500,
                "WRITE_FAILED"@,
                "Failed to write file: "@ + cause@,
            ),
            SaveOutcome::Saved => response::plain_success(),
        }),
{
    match outcome {
        SaveOutcome::NoDirectory(cause) => response::error_response(
            500,
            "CREATE_DIR_FAILED",
            response::message_with("Failed to create directory: ", cause.as_str()).as_str(),
        ),
        SaveOutcome::NotWritten(cause) => response::error_response(
            500,
            "WRITE_FAILED",
            response::message_with("Failed to write file: ", cause.as_str()).as_str(),
        ),
        SaveOutcome::Saved => response::ok_response(),
    }
}

/// Finds the path that a request deletes, or refuses the request.
pub fn handle_delete_file(
    request: Result<DeleteFileRequest, String>,
    projects: Vec<ProjectEntry>,
    platform: Platform,
) -> (r: Result<String, OmnimindResponse>)
    requires
        request matches Ok(request) ==> id_decodable(request.project_id),
    ensures
        match request {
            Err(cause) => r matches Err(answer) && answer@ == response::invalid_json(cause@),
            Ok(request) => {
                let path = path_in(
                    platform,
                    projects::target(
                        text::optional_text(request.project_id),
                        projects::project_views(projects@),
                        platform,
                    ),
                    request.path@,
                );
                match r {
                    Ok(found) => path == Ok::<Seq<char>, ResponseModel>(found@),
                    Err(answer) => path == Err::<Seq<char>, ResponseModel>(answer@),
                }
            },
        },
{
    let request = match request {
        Ok(request) => request,
        Err(cause) => {
            return Err(response::invalid_json_response(cause.as_str()));
        },
    };
    let target = projects::get_target_project(
        text::optional_str(&request.project_id),
        projects,
        platform,
    );
    resolve_in(platform, target, request.path.as_str())
}

/// What is deleted.
#[derive(Clone, Copy, Debug, PartialEq, Eq, Structural)]
pub enum Deletion {
    Directory,
    File,
}

/// The response where a path leads nowhere.
pub open spec fn missing() -> ResponseModel {
    response::failure(404, "FILE_NOT_FOUND"@, "File does not exist"@)
}

/// Decides how a path is deleted; one that leads nowhere is not.
pub fn plan_deletion(kind: PathKind) -> (r: Result<Deletion, OmnimindResponse>)
    ensures
        match kind {
            PathKind::Missing => r matches Err(answer) && answer@ == missing(),
            PathKind::Directory => r == Ok::<Deletion, OmnimindResponse>(Deletion::Directory),
            PathKind::File => r == Ok::<Deletion, OmnimindResponse>(Deletion::File),
        },
{
    match kind {
        PathKind::Missing => Err(
            response::error_response(404, "FILE_NOT_FOUND", "File does not exist"),
        ),
        PathKind::Directory => Ok(Deletion::Directory),
        PathKind::File => Ok(Deletion::File),
    }
}

/// Answers a request to delete, from what became of it.
pub fn delete_response(deletion: Deletion, failed: Option<String>) -> (r: OmnimindResponse)
    ensures
        r@ == (match failed {
            None => response::plain_success(),
            Some(cause) => response::failure(
                500,
                "DELETE_FAILED"@,
                (match deletion {
                    Deletion::Directory => "Failed to delete directory: "@,
                    Deletion::File => "Failed to delete file: "@,
                }) + cause@,
            ),
        }),
{
    match failed {
        None => response::ok_response(),
        Some(cause) => {
            let beginning = match deletion {
                Deletion::Directory => "Failed to delete directory: ",
                Deletion::File => "Failed to delete file: ",
            };
            response::error_response(
                500,
                "DELETE_FAILED",
                response::message_with(beginning, cause.as_str()).as_str(),
            )
        },
    }
}

/// The path that a query asks to read, or why it is refused.
pub open spec fn path_to_read(
    query: Seq<char>,
    projects: Seq<ProjectModel>,
    platform: Platform,
) -> Result<Seq<char>, ResponseModel> {
    let params = url::query_parameters(query);
    match url::parameter(params, "path"@) {
        None => Err(
            response::failure(400, "PATH_REQUIRED"@, "path parameter is required"@),
        ),
        Some(rel) => path_in(
            platform,
            projects::target(url::parameter(params, "projectId"@), projects, platform),
            rel,
        ),
    }
}

/// Whether the project that a query names, where that counts, can be percent-decoded once more.
pub open spec fn read_decodable(query: Seq<char>) -> bool {
    let params = url::query_parameters(query);
    url::parameter(params, "path"@) is Some ==> (url::parameter(params, "projectId"@) matches Some(
        id,
    ) ==> url::decodable(id))
}

/// Finds the path that a query asks to read, or refuses it.
pub fn handle_get_file_content(query: &str, projects: Vec<ProjectEntry>, platform: Platform) -> (r:
    Result<String, OmnimindResponse>)
    requires
        url::query_decodable(query@),
        read_decodable(query@),
    ensures
        match r {
            Ok(path) => path_to_read(query@, projects::project_views(projects@), platform)
                == Ok::<Seq<char>, ResponseModel>(path@),
            Err(answer) => path_to_read(query@, projects::project_views(projects@), platform)
                == Err::<Seq<char>, ResponseModel>(answer@),
        },
{
    let params = url::parse_query(query);
    let rel = match url::parameter_of(&params, "path") {
        Some(rel) => rel,
        None => {
            return Err(
                response::error_response(400, "PATH_REQUIRED", "path parameter is required"),
            );
        },
    };
    let target = projects::get_target_project(
        url::parameter_of(&params, "projectId"),
        projects,
        platform,
    );
    resolve_in(platform, target, rel)
}

/// Finds the path that a query asks to read, or refuses it; nothing comes back where the project
/// that it names cannot be percent-decoded once more.
pub fn try_get_file_content(query: &str, projects: Vec<ProjectEntry>, platform: Platform) -> (r:
    Option<Result<String, OmnimindResponse>>)
    requires
        url::query_decodable(query@),
    ensures
        r is None == !read_decodable(query@),
        match r {
            Some(Ok(path)) => path_to_read(query@, projects::project_views(projects@), platform)
                == Ok::<Seq<char>, ResponseModel>(path@),
            Some(Err(answer)) => path_to_read(
                query@,
                projects::project_views(projects@),
                platform,
            ) == Err::<Seq<char>, ResponseModel>(answer@),
            None => true,
        },
{
    let params = url::parse_query(query);
    match (url::parameter_of(&params, "path"), url::parameter_of(&params, "projectId")) {
        (Some(_), Some(id)) => {
            if !url::is_decodable(id) {
                return None;
            }
        },
        _ => {},
    }
    Some(handle_get_file_content(query, projects, platform))
}

/// Decides whether a path can be read: what leads nowhere, and a directory, cannot.
pub fn plan_reading(kind: PathKind) -> (r: Option<OmnimindResponse>)
    ensures
        match kind {
            PathKind::Missing => r matches Some(answer) && answer@ == missing(),
            PathKind::Directory => r matches Some(answer) && answer@ == response::failure(
                400,
                "NOT_A_FILE"@,
                "Path is a directory"@,
            ),
            PathKind::File => r is None,
        },
{
    match kind {
        PathKind::Missing => Some(
            response::error_response(404, "FILE_NOT_FOUND", "File does not exist"),
        ),
        PathKind::Directory => Some(
            response::error_response(400, "NOT_A_FILE", "Path is a directory"),
        ),
        PathKind::File => None,
    }
}

/// Answers a request to read a file with what was read.
pub fn content_response(content: Result<String, String>) -> (r: OmnimindResponse)
    ensures
        r@ == (match content {
            Ok(content) => response::success(
                json::no_fields().push(("ok"@, JsonModel::Bool(true))).push(
                    ("content"@, JsonModel::Text(content@)),
                ),
            ),
            Err(cause) => response::failure(
                500,
                "READ_FAILED"@,
                "Failed to read file: "@ + cause@,
            ),
        }),
{
    match content {
        Ok(content) => response::success_response(
            Fields::new().and("ok", Json::Bool(true)).and("content", Json::Text(content)),
        ),
        Err(cause) => response::error_response(
            500,
            "READ_FAILED",
            response::message_with("Failed to read file: ", cause.as_str()).as_str(),
        ),
    }
}

/// What is listed: the wiki, the raw sources, or all that is public.
#[derive(Clone, Copy, Debug, PartialEq, Eq, Structural)]
pub enum FilesRoot {
    Wiki,
    Sources,
    All,
}

/// What a name asks to list, if it is one that there is.
pub open spec fn named_root(name: Seq<char>) -> Option<FilesRoot> {
    if name == "wiki"@ {
        Some(FilesRoot::Wiki)
    } else if name == "sources"@ || name == "raw"@ || name == "raw/sources"@ {
        Some(FilesRoot::Sources)
    } else if name == "all"@ || name == ""@ {
        Some(FilesRoot::All)
    } else {
        None
    }
}

/// The name that a listing is reported under; but for all that is public it is the directory.
pub open spec fn root_name(root: FilesRoot) -> Seq<char> {
    match root {
        FilesRoot::Wiki => "wiki"@,
        FilesRoot::Sources => "raw/sources"@,
        FilesRoot::All => "all"@,
    }
}

/// Tells the name that a listing is reported under.
fn root_label(root: FilesRoot) -> (r: &'static str)
    ensures
        r@ == root_name(root),
{
    match root {
        FilesRoot::Wiki => "wiki",
        FilesRoot::Sources => "raw/sources",
        FilesRoot::All => "all",
    }
}

/// What a query asks to list; the wiki where it does not say.
pub open spec fn root_asked(query: Seq<char>) -> Option<FilesRoot> {
    match url::parameter(url::query_parameters(query), "root"@) {
        Some(name) => named_root(name),
        None => Some(FilesRoot::Wiki),
    }
}

/// Whether a query asks to look into directories; so it does unless it says no.
pub open spec fn recursion_asked(query: Seq<char>) -> bool {
    url::parameter(url::query_parameters(query), "recursive"@) != Some("false"@)
}

/// How many entries a query asks for: 2000 where it does not say, and not more than 10000.
pub open spec fn entries_asked(query: Seq<char>) -> usize {
    match url::parameter(url::query_parameters(query), "maxFiles"@) {
        Some(value) => match text::parse_size(value) {
            Some(n) => search::held_between(n as usize, 1, 10000),
            None => 2000,
        },
        None => 2000,
    }
}

/// A listing that is ready for the file system.
pub struct FilesPlan {
    pub project: ProjectEntry,
    pub root: FilesRoot,
    pub recursive: bool,
    pub max_files: usize,
}

/// Reads what a query asks to list, or refuses it.
pub fn handle_files(project: Result<ProjectEntry, String>, query: &str) -> (r: Result<
    FilesPlan,
    OmnimindResponse,
>)
    requires
        project is Ok ==> url::query_decodable(query@),
    ensures
        match project {
            Err(message) => r matches Err(answer) && answer@ == not_found(message@),
            Ok(project) => match root_asked(query@) {
                None => r matches Err(answer) && answer@ == response::failure(
                    400,
                    "INVALID_ROOT"@,
                    "root must be wiki, sources, or all"@,
                ),
                Some(root) => {
                    &&& r matches Ok(plan)
                    &&& plan.project == project
                    &&& plan.root == root
                    &&& plan.recursive == recursion_asked(query@)
                    &&& plan.max_files == entries_asked(query@)
                },
            },
        },
{
    let project = match project {
        Ok(project) => project,
        Err(message) => {
            return Err(project_not_found(message.as_str()));
        },
    };
    let params = url::parse_query(query);
    let recursive = match url::parameter_of(&params, "recursive") {
        Some(value) => !text::same_text(value, "false"),
        None => true,
    };
    let max_files: usize = match url::parameter_of(&params, "maxFiles") {
        Some(value) => match text::parsed_size(value) {
            Some(n) => search::clamp_size(n, 1, 10000),
            None => 2000,
        },
        None => 2000,
    };
    let root = match url::parameter_of(&params, "root") {
        Some(name) => if text::same_text(name, "wiki") {
            FilesRoot::Wiki
        } else if text::same_text(name, "sources") || text::same_text(name, "raw")
            || text::same_text(name, "raw/sources") {
            FilesRoot::Sources
        } else if text::same_text(name, "all") || text::same_text(name, "") {
            FilesRoot::All
        } else {
            return Err(
                response::error_response(400, "INVALID_ROOT", "root must be wiki, sources, or all"),
            );
        },
        None => FilesRoot::Wiki,
    };
    Ok(FilesPlan { project, root, recursive, max_files })
}

/// How a listing begins.
pub open spec fn listing_begins(plan: FilesPlan, present: Seq<bool>) -> listing::ListModel {
    let settings = Settings {
        project_path: plan.project.path@,
        recursive: plan.recursive,
        max_files: plan.max_files as nat,
    };
    match plan.root {
        FilesRoot::All => listing::begin_roots(
            settings,
            listing::public_roots(plan.project.path@, listing::public_names(), present),
        ),
        root => listing::begin_tree(
            settings,
            encode_utf8(paths::join(plan.project.path@, root_name(root))),
        ),
    }
}

impl FilesPlan {
    /// Begins the listing. Of each public path it is told whether there is anything.
    pub fn begin(&self, present: &[bool]) -> (r: ListStep)
        ensures
            r@ == listing_begins(*self, present@),
    {
        let path = self.project.path.as_str();
        match self.root {
            FilesRoot::All => listing::list_public_roots(
                path,
                present,
                self.recursive,
                self.max_files,
            ),
            root => {
                let dir = paths::joined(path, root_label(root));
                listing::list_tree(
                    path,
                    vstd::slice::slice_to_vec(dir.as_str().as_bytes()),
                    self.recursive,
                    self.max_files,
                )
            },
        }
    }

    /// Answers with what the listing came to.
    pub fn respond(&self, listed: Result<Vec<ApiFileNode>, String>) -> (r: OmnimindResponse)
        ensures
            r@ == files_response(
                self.project.id@,
                self.root,
                match listed {
                    Ok(nodes) => Ok(listing::file_models(nodes@)),
                    Err(message) => Err(message@),
                },
            ),
    {
        match listed {
            Ok(nodes) => response::success_response(
                Fields::new().and("ok", Json::Bool(true)).and(
                    "projectId",
                    Json::text(self.project.id.as_str()),
                ).and("root", Json::text(root_label(self.root))).and(
                    "files",
                    listing::nodes_json(&nodes),
                ).and("truncated", Json::Bool(false)),
            ),
            Err(message) => response::error_response(500, "LIST_FILES_FAILED", message.as_str()),
        }
    }
}

/// The response with a listing.
pub open spec fn files_response(
    project_id: Seq<char>,
    root: FilesRoot,
    listed: Result<Seq<FileModel>, Seq<char>>,
) -> ResponseModel {
    match listed {
        Ok(nodes) => response::success(
            json::no_fields().push(("ok"@, JsonModel::Bool(true))).push(
                ("projectId"@, JsonModel::Text(project_id)),
            ).push(("root"@, JsonModel::Text(root_name(root)))).push(
                ("files"@, listing::nodes_json_model(nodes)),
            ).push(("truncated"@, JsonModel::Bool(false))),
        ),
        Err(message) => response::failure(500, "LIST_FILES_FAILED"@, message),
    }
}

/// Every path that a request saves to, deletes or reads lies in the project that the request is
/// about: its parts begin with those of the project's directory, and none behind them leads up.
pub proof fn requests_stay_inside(
    platform: Platform,
    target: Result<ProjectModel, Seq<char>>,
    rel: Seq<char>,
)
    requires
        path_in(platform, target, rel) is Ok,
    ensures
        ({
            let path = paths::parts(path_in(platform, target, rel)->Ok_0);
            let root = paths::parts(target->Ok_0.path);
            &&& paths::starts_with(path, root)
            &&& !path.skip(root.len() as int).contains(paths::Part::ParentDir)
        }),
{
    paths::accepted_path_is_inside(platform, target->Ok_0.path, rel);
}

/// What is listed is asked for by the names `wiki`, `sources`, `raw`, `raw/sources` and `all`, or
/// by no name, and by nothing else. The name that a listing is reported under asks for it again.
pub proof fn roots_are_named(root: FilesRoot, name: Seq<char>)
    ensures
        named_root(root_name(root)) == Some(root),
        root_name(FilesRoot::Wiki) == "wiki"@,
        root_name(FilesRoot::Sources) == "raw/sources"@,
        root_name(FilesRoot::All) == "all"@,
        named_root("wiki"@) == Some(FilesRoot::Wiki),
        named_root("sources"@) == Some(FilesRoot::Sources),
        named_root("raw"@) == Some(FilesRoot::Sources),
        named_root("raw/sources"@) == Some(FilesRoot::Sources),
        named_root("all"@) == Some(FilesRoot::All),
        named_root(Seq::empty()) == Some(FilesRoot::All),
        named_root(name) is Some ==> name.len() == 0 || name == "wiki"@ || name == "sources"@
            || name == "raw"@ || name == "raw/sources"@ || name == "all"@,
{
    reveal_strlit("wiki");
    reveal_strlit("sources");
    reveal_strlit("raw");
    reveal_strlit("raw/sources");
    reveal_strlit("all");
    reveal_strlit("");
    assert("wiki"@.len() == 4 && "sources"@.len() == 7 && "raw"@.len() == 3);
    assert("raw/sources"@.len() == 11 && "all"@.len() == 3 && ""@.len() == 0);
    assert("raw"@[0] == 'r' && "all"@[0] == 'a');
    assert(""@ =~= Seq::empty());
}

/// A listing asked for by the name of a root is one of that root: by `wiki`, and where no root is
/// given, it is the wiki. Whether directories are looked into, and how many entries there may be,
/// is as the query says: they are unless it says `false`, and 2000 unless it gives a number
/// between 1 and 10000.
pub proof fn listing_is_as_asked(query: Seq<char>, root: FilesRoot, n: nat)
    requires
        n <= usize::MAX,
    ensures
        ({
            let params = url::query_parameters(query);
            let named = url::parameter(params, "root"@);
            let recursive = url::parameter(params, "recursive"@);
            let most = url::parameter(params, "maxFiles"@);
            &&& named is None ==> root_asked(query) == Some(FilesRoot::Wiki)
            &&& named == Some("wiki"@) ==> root_asked(query) == Some(FilesRoot::Wiki)
            &&& named == Some("sources"@) ==> root_asked(query) == Some(FilesRoot::Sources)
            &&& named == Some("all"@) ==> root_asked(query) == Some(FilesRoot::All)
            &&& named == Some(root_name(root)) ==> root_asked(query) == Some(root)
            &&& recursive is None ==> recursion_asked(query)
            &&& recursive == Some("false"@) ==> !recursion_asked(query)
            &&& recursive is Some && recursive != Some("false"@) ==> recursion_asked(query)
            &&& most is None ==> entries_asked(query) == 2000
            &&& most is Some && text::parse_size(most->0) is None ==> entries_asked(query) == 2000
            &&& most == Some(text::decimal(n)) && 1 <= n <= 10000 ==> entries_asked(query) == n
            &&& most == Some(text::decimal(n)) && n == 0 ==> entries_asked(query) == 1
            &&& most == Some(text::decimal(n)) && n > 10000 ==> entries_asked(query) == 10000
        }),
{
    roots_are_named(root, Seq::empty());
    text::numeral_is_read(n, Seq::empty());
}

/// The query `root=` with the name of a root asks for that root.
pub proof fn root_is_asked_by_name(root: FilesRoot)
    ensures
        root_asked("root"@ + seq!['='] + root_name(root)) == Some(root),
{
    roots_are_named(root, Seq::empty());
    reveal_strlit("wiki");
    reveal_strlit("sources");
    reveal_strlit("raw");
    reveal_strlit("raw/sources");
    reveal_strlit("all");
    reveal_strlit("root");
    assert("wiki"@.len() == 4 && "sources"@.len() == 7 && "raw"@.len() == 3);
    assert("raw/sources"@.len() == 11 && "all"@.len() == 3 && "root"@.len() == 4);
    assert("wiki"@[0] == 'w' && "root"@[0] == 'r' && "raw"@[0] == 'r');
    assert("all"@[0] == 'a');
    let name = root_name(root);
    assert(!"root"@.contains('=') && !"root"@.contains('&') && !"root"@.contains('%')
        && !"root"@.contains('+'));
    assert(!name.contains('&') && !name.contains('%') && !name.contains('+'));
    url::parameters_are_read(Seq::empty(), "root"@, name);
    url::plain_text_is_kept("root"@);
    url::plain_text_is_kept(name);
    assert(url::parameter(
        Map::<Seq<char>, Seq<char>>::empty().insert("root"@, name),
        "root"@,
    ) == Some(name));
}

/// A listing of the wiki begins with the directory `wiki` of the project, one of the sources with
/// `raw/sources`, and one of all that is public with the public files that are there.
pub proof fn listing_begins_at_root(plan: FilesPlan, present: Seq<bool>)
    ensures
        plan.root == FilesRoot::Wiki ==> (listing_begins(plan, present) matches listing::ListModel::Directory {
            path,
            ..
        } && path == encode_utf8(paths::join(plan.project.path@, "wiki"@))),
        plan.root == FilesRoot::Sources ==> (listing_begins(
            plan,
            present,
        ) matches listing::ListModel::Directory { path, .. } && path == encode_utf8(
            paths::join(plan.project.path@, "raw/sources"@),
        )),
        plan.root != FilesRoot::All ==> (listing_begins(
            plan,
            present,
        ) matches listing::ListModel::Directory { settings, stack, count, over, .. }
            && settings.project_path == plan.project.path@ && settings.recursive == plan.recursive
            && settings.max_files == plan.max_files && stack.len() == 0 && count == 0
            && over is None),
{
}

/// A path is found in a project that is known and where it leads nowhere out; otherwise the request
/// is refused: an unknown project with 404, and a bad path with 400.
pub proof fn paths_are_judged(
    platform: Platform,
    target: Result<ProjectModel, Seq<char>>,
    rel: Seq<char>,
)
    ensures
        match (target, path_in(platform, target, rel)) {
            (Err(message), found) => found matches Err(answer) && response::tells_error(
                answer,
                404,
                "PROJECT_NOT_FOUND"@,
                message,
            ),
            (Ok(project), Ok(path)) => paths::inside(platform, project.path, rel) == Ok::<
                Seq<char>,
                Seq<char>,
            >(path),
            (Ok(project), Err(answer)) => paths::inside(platform, project.path, rel) matches Err(
                message,
            ) && response::tells_error(answer, 400, "INVALID_PATH"@, message),
        },
{
    match target {
        Err(message) => {
            response::errors_are_told(404, "PROJECT_NOT_FOUND"@, message);
        },
        Ok(project) => match paths::inside(platform, project.path, rel) {
            Ok(_) => {},
            Err(message) => {
                response::errors_are_told(400, "INVALID_PATH"@, message);
            },
        },
    }
}

/// A query that asks to read gives a path, and is read in the project that it names, or in the
/// current one; without a path it is refused.
pub proof fn reading_is_judged(
    query: Seq<char>,
    projects: Seq<ProjectModel>,
    platform: Platform,
)
    ensures
        ({
            let params = url::query_parameters(query);
            match url::parameter(params, "path"@) {
                Some(rel) => path_to_read(query, projects, platform) == path_in(
                    platform,
                    projects::target(url::parameter(params, "projectId"@), projects, platform),
                    rel,
                ),
                None => path_to_read(query, projects, platform) matches Err(answer)
                    && response::tells_error(
                    answer,
                    400,
                    "PATH_REQUIRED"@,
                    "path parameter is required"@,
                ),
            }
        }),
        response::tells_error(missing(), 404, "FILE_NOT_FOUND"@, "File does not exist"@),
{
    response::errors_are_told(400, "PATH_REQUIRED"@, "path parameter is required"@);
    response::errors_are_told(404, "FILE_NOT_FOUND"@, "File does not exist"@);
}

/// A listing is answered with the name of what was listed and its entries, none of them left out.
pub proof fn listing_is_written(project_id: Seq<char>, root: FilesRoot, nodes: Seq<FileModel>, message: Seq<char>)
    ensures
        ({
            let value = files_response(project_id, root, Ok(nodes)).body;
            &&& value->Object_0.len() == 5
            &&& value.field("ok"@) == Some(JsonModel::Bool(true))
            &&& value.field("projectId"@) == Some(JsonModel::Text(project_id))
            &&& value.field("root"@) == Some(JsonModel::Text(root_name(root)))
            &&& value.field("files"@) == Some(listing::nodes_json_model(nodes))
            &&& value.field("truncated"@) == Some(JsonModel::Bool(false))
        }),
        files_response(project_id, root, Ok(nodes)).status == 200,
        response::tells_error(
            files_response(project_id, root, Err(message)),
            500,
            "LIST_FILES_FAILED"@,
            message,
        ),
{
    reveal_strlit("ok");
    reveal_strlit("projectId");
    reveal_strlit("root");
    reveal_strlit("files");
    reveal_strlit("truncated");
    assert("ok"@.len() == 2 && "projectId"@.len() == 9 && "root"@.len() == 4);
    assert("files"@.len() == 5 && "truncated"@.len() == 9 && "projectId"@[0] == 'p');
    assert("truncated"@[0] == 't');
    let fields = (files_response(project_id, root, Ok(nodes)).body)->Object_0;
    assert(fields[0] == ("ok"@, JsonModel::Bool(true)));
    assert(fields[1] == ("projectId"@, JsonModel::Text(project_id)));
    assert(fields[2] == ("root"@, JsonModel::Text(root_name(root))));
    assert(fields[3] == ("files"@, listing::nodes_json_model(nodes)));
    assert(fields[4] == ("truncated"@, JsonModel::Bool(false)));
    json::each_field_is_read(fields);
    response::errors_are_told(500, "LIST_FILES_FAILED"@, message);
}

/// A file is asked for by the parameter `path`, and the project that it lies in by `projectId`:
/// only where both are given does the project have to be decodable once more.
pub proof fn named_project_is_decoded(query: Seq<char>)
    ensures
        ({
            let params = url::query_parameters(query);
            let path = url::parameter(params, "path"@);
            let id = url::parameter(params, "projectId"@);
            &&& path is None || id is None ==> read_decodable(query)
            &&& path is Some && id is Some ==> read_decodable(query) == url::decodable(id->0)
        }),
{
}

/// A request that names no project, or one in ASCII, can be decoded.
pub proof fn plain_id_is_decodable(id: String)
    ensures
        id_decodable(None),
        id_decodable(Some(id)) == url::decodable(id@),
        is_ascii_chars(id@) ==> id_decodable(Some(id)),
{
    if is_ascii_chars(id@) {
        url::ascii_is_decodable(id@);
    }
}

} // verus!

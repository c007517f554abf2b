//! The endpoint that takes files in one form into the wiki of a project.
use crate::json;
use crate::json::{Fields, Json, JsonModel};
use crate::paths;
use crate::projects;
use crate::projects::{ProjectEntry, ProjectModel};
use crate::response;
use crate::response::{OmnimindResponse, ResponseModel};
use crate::startup::Platform;
use crate::text;
use crate::url;
use vstd::prelude::*;
use vstd::string::*;

verus! {

/// The names and values of some headers.
pub open spec fn header_views(headers: Seq<(String, String)>) -> Seq<(Seq<char>, Seq<char>)> {
    headers.map_values(|h: (String, String)| (h.0@, h.1@))
}

/// The boundary that a header gives between the parts of a form, if it gives one: all that
/// stands behind `boundary=`.
pub open spec fn boundary_in(name: Seq<char>, value: Seq<char>) -> Option<Seq<char>> {
    if text::ascii_lower(name) != "content-type"@ || !text::contains(
        text::unicode_lower(value),
        "multipart/form-data"@,
    ) {
        None
    } else {
        match text::find(value, "boundary="@, 0) {
            Some(at) => Some(value.skip(at + 9)),
            None => None,
        }
    }
}

/// The boundary that the first header gives that gives one.
pub open spec fn boundary(headers: Seq<(Seq<char>, Seq<char>)>) -> Option<Seq<char>>
    decreases headers.len(),
{
    if headers.len() == 0 {
        None
    } else {
        match boundary_in(headers[0].0, headers[0].1) {
            Some(found) => Some(found),
            None => boundary(headers.drop_first()),
        }
    }
}

/// Reads the boundary that a header gives.
fn read_boundary(name: &str, value: &str) -> (r: Option<String>)
    ensures
        match r {
            Some(found) => boundary_in(name@, value@) == Some(found@),
            None => boundary_in(name@, value@) is None,
        },
{
    if !text::same_text(text::ascii_lowered(name).as_str(), "content-type") {
        return None;
    }
    if !text::contains_text(text::unicode_lowered(value).as_str(), "multipart/form-data") {
        return None;
    }
    let v = text::chars_of(value);
    let p = text::chars_of("boundary=");
    proof {
        reveal_strlit("boundary=");
    }
    match text::find_from(v.as_slice(), p.as_slice(), 0) {
        Some(at) => {
            proof {
                text::lemma_found(v@, "boundary="@, 0, at as int);
            }
            let end: usize = v.len();
            let found = text::text_between(v.as_slice(), at + 9, end);
            assert(found@ =~= value@.skip(at + 9));
            Some(found)
        },
        None => {
            proof {
                text::lemma_not_found(v@, "boundary="@, 0);
            }
            None
        },
    }
}

/// Reads the boundary between the parts of a form from the headers of a request.
pub fn get_multipart_boundary(headers: &[(String, String)]) -> (r: Option<String>)
    ensures
        match r {
            Some(found) => boundary(header_views(headers@)) == Some(found@),
            None => boundary(header_views(headers@)) is None,
        },
{
    let ghost all = header_views(headers@);
    assert(all.skip(0) =~= all);
    let mut i: usize = 0;
    while i < headers.len()
        invariant
            i <= headers@.len(),
            all == header_views(headers@),
            boundary(all) == boundary(all.skip(i as int)),
        decreases headers@.len() - i,
    {
        proof {
            assert(all.skip(i as int)[0] == (headers@[i as int].0@, headers@[i as int].1@));
            assert(all.skip(i as int).drop_first() =~= all.skip(i + 1));
        }
        match read_boundary(headers[i].0.as_str(), headers[i].1.as_str()) {
            Some(found) => {
                return Some(found);
            },
            None => {},
        }
        i = i + 1;
    }
    assert(all.skip(i as int) =~= Seq::empty());
    None
}

/// Answers a request that is no form.
pub fn no_form_response() -> (r: OmnimindResponse)
    ensures
        r@ == response::failure(
            400,
            "INVALID_CONTENT_TYPE"@,
            "Content-Type must be multipart/form-data"@,
        ),
{
    response::error_response(
        400,
        "INVALID_CONTENT_TYPE",
        "Content-Type must be multipart/form-data",
    )
}

/// The project that a query uploads to: the one that it names, else the current one, else the
/// first; none where there is no project at all.
pub open spec fn upload_project(
    query: Seq<char>,
    projects: Seq<ProjectModel>,
    platform: Platform,
) -> Option<ProjectModel> {
    let named = url::parameter(url::query_parameters(query), "projectId"@);
    match projects::target(named, projects, platform) {
        Ok(project) => Some(project),
        Err(_) => match projects::target(None, projects, platform) {
            Ok(project) => Some(project),
            Err(_) => None,
        },
    }
}

/// Copies a project.
fn copied(project: &ProjectEntry) -> (r: ProjectEntry)
    ensures
        r@ == project@,
{
    ProjectEntry {
        id: project.id.clone(),
        name: project.name.clone(),
        path: project.path.clone(),
        current: project.current,
    }
}

/// Copies some projects.
fn copied_all(projects: &Vec<ProjectEntry>) -> (r: Vec<ProjectEntry>)
    ensures
        projects::project_views(r@) == projects::project_views(projects@),
{
    let mut r: Vec<ProjectEntry> = Vec::new();
    let mut i: usize = 0;
    while i < projects.len()
        invariant
            i <= projects@.len(),
            r@.len() == i,
            forall|j: int| 0 <= j < i ==> (#[trigger] r@[j])@ == projects@[j]@,
        decreases projects@.len() - i,
    {
        r.push(copied(&projects[i]));
        i = i + 1;
    }
    assert(projects::project_views(r@) =~= projects::project_views(projects@));
    r
}

/// The value of an optional project.
pub open spec fn optional_project(project: Option<ProjectEntry>) -> Option<ProjectModel> {
    match project {
        Some(project) => Some(project@),
        None => None,
    }
}

/// Finds the project that a query uploads to.
pub fn upload_target(query: &str, projects: Vec<ProjectEntry>, platform: Platform) -> (r: Option<
    ProjectEntry,
>)
    requires
        url::query_decodable(query@),
        url::parameter(url::query_parameters(query@), "projectId"@) matches Some(id)
            ==> url::decodable(id),
    ensures
        optional_project(r) == upload_project(
            query@,
            projects::project_views(projects@),
            platform,
        ),
{
    let params = url::parse_query(query);
    let spare = copied_all(&projects);
    let named = url::parameter_of(&params, "projectId");
    match projects::get_target_project(named, projects, platform) {
        Ok(project) => Some(project),
        Err(_) => match projects::get_target_project(None, spare, platform) {
            Ok(project) => Some(project),
            Err(_) => None,
        },
    }
}

/// Finds the project that a query uploads to; nothing comes back where the project that it names
/// cannot be percent-decoded once more.
pub fn try_upload_target(query: &str, projects: Vec<ProjectEntry>, platform: Platform) -> (r: Option<
    Option<ProjectEntry>,
>)
    requires
        url::query_decodable(query@),
    ensures
        r is None == (url::parameter(url::query_parameters(query@), "projectId"@) matches Some(id)
            && !url::decodable(id)),
        r matches Some(project) ==> optional_project(project) == upload_project(
            query@,
            projects::project_views(projects@),
            platform,
        ),
{
    let params = url::parse_query(query);
    match url::parameter_of(&params, "projectId") {
        Some(id) => {
            if !url::is_decodable(id) {
                return None;
            }
        },
        None => {},
    }
    Some(upload_target(query, projects, platform))
}

/// An upload finds a project wherever there is one, though the one that it names is unknown.
pub proof fn upload_falls_back(query: Seq<char>, projects: Seq<ProjectModel>, platform: Platform)
    ensures
        upload_project(query, projects, platform) is Some == (projects.len() > 0),
{
    let named = url::parameter(url::query_parameters(query), "projectId"@);
    if projects.len() == 0 {
        reveal_with_fuel(projects::first_meant, 2);
    }
}

/// The home that the data of the application is kept in when nothing better is known.
pub open spec fn home_or_here(home: Option<Seq<char>>, user_profile: Option<Seq<char>>) -> Seq<
    char,
> {
    match (home, user_profile) {
        (Some(home), _) => home,
        (None, Some(user_profile)) => user_profile,
        (None, None) => "."@,
    }
}

/// Tells the home that the data of the application is kept in when nothing better is known.
pub fn fallback_home(home: Option<String>, user_profile: Option<String>) -> (r: String)
    ensures
        r@ == home_or_here(text::optional_text(home), text::optional_text(user_profile)),
{
    match home {
        Some(home) => home,
        None => match user_profile {
            Some(user_profile) => user_profile,
            None => ".".to_owned(),
        },
    }
}

/// Where the project is made that is made where there is none: below the directory of the
/// application data, or below the home if there is no such directory.
pub fn workspace_path(
    platform: Platform,
    data_dir: Option<String>,
    home: Option<String>,
    user_profile: Option<String>,
) -> (r: String)
    ensures
        ({
            let base = match data_dir {
                Some(data_dir) => paths::slashed(platform, data_dir@),
                None => paths::join(
                    paths::slashed(
                        platform,
                        home_or_here(text::optional_text(home), text::optional_text(user_profile)),
                    ),
                    "Library/Application Support/com.llmwiki.app"@,
                ),
            };
            r@ == paths::join(base, "default-workspace"@)
        }),
{
    let base = match data_dir {
        Some(data_dir) => paths::slashed_text(platform, data_dir.as_str()),
        None => {
            let home = fallback_home(home, user_profile);
            paths::joined(
                paths::slashed_text(platform, home.as_str()).as_str(),
                "Library/Application Support/com.llmwiki.app",
            )
        },
    };
    paths::joined(base.as_str(), "default-workspace")
}

/// The project that is made where there is none.
pub fn default_workspace(path: &str) -> (r: ProjectEntry)
    ensures
        r@ == (ProjectModel {
            id: "default"@,
            name: "Default Workspace"@,
            path: paths::normal_path(path@),
            current: true,
        }),
{
    ProjectEntry {
        id: "default".to_owned(),
        name: "Default Workspace".to_owned(),
        path: paths::normalize_path(path),
        current: true,
    }
}

/// An upload: the directory that the files go to, and where those that were stored are found.
pub struct Upload {
    wiki_dir: String,
    locations: Vec<String>,
}

/// The name that a file without one is stored under.
pub open spec fn stored_name(name: Option<Seq<char>>) -> Seq<char> {
    match name {
        Some(name) => name,
        None => "uploaded_file.txt"@,
    }
}

/// The place of a stored file as JSON.
pub open spec fn document_model(location: Seq<char>) -> JsonModel {
    JsonModel::Object(json::no_fields().push(("location"@, JsonModel::Text(location))))
}

/// The response to an upload.
pub open spec fn upload_answer(locations: Seq<Seq<char>>) -> ResponseModel {
    response::success(
        json::no_fields().push(("ok"@, JsonModel::Bool(true))).push(
            (
                "documents"@,
                JsonModel::Array(locations.map_values(|l: Seq<char>| document_model(l))),
            ),
        ).push(
            (
                "location"@,
                if locations.len() > 0 {
                    JsonModel::Text(locations[0])
                } else {
                    JsonModel::Null
                },
            ),
        ),
    )
}

/// The response where a file of an upload could not be stored.
pub open spec fn file_failure(
    code: Seq<char>,
    beginning: Seq<char>,
    name: Seq<char>,
    cause: Seq<char>,
) -> ResponseModel {
    response::failure(500, code, beginning + name + ": "@ + cause)
}

fn file_failed(code: &str, beginning: &str, name: &str, cause: &str) -> (r: OmnimindResponse)
    ensures
        r@ == file_failure(code@, beginning@, name@, cause@),
{
    let mut message = response::message_with(beginning, name);
    message.append(": ");
    message.append(cause);
    response::error_response(500, code, message.as_str())
}

/// What became of a file of an upload.
pub enum FileOutcome {
    /// It could not be made.
    NotCreated(String),
    /// It could not be written.
    NotWritten(String),
    Stored,
}

impl Upload {
    /// The directory that the files go to.
    pub closed spec fn dir(&self) -> Seq<char> {
        self.wiki_dir@
    }

    /// Where the stored files are found.
    pub closed spec fn stored(&self) -> Seq<Seq<char>> {
        text::views(self.locations@)
    }

    /// Begins an upload to the wiki of a project.
    pub fn new(project: &ProjectEntry) -> (r: Upload)
        ensures
            r.dir() == paths::join(project.path@, "wiki"@),
            r.stored() == Seq::<Seq<char>>::empty(),
    {
        let r = Upload {
            wiki_dir: paths::joined(project.path.as_str(), "wiki"),
            locations: Vec::new(),
        };
        assert(r.stored() =~= Seq::empty());
        r
    }

    /// The directory that the files go to.
    pub fn directory(&self) -> (r: &str)
        ensures
            r@ == self.dir(),
    {
        self.wiki_dir.as_str()
    }

    /// Answers an upload whose directory could not be made.
    pub fn no_directory(&self, cause: &str) -> (r: OmnimindResponse)
        ensures
            r@ == response::failure(
                500,
                "CREATE_DIR_FAILED"@,
                "Failed to create wiki dir: "@ + cause@,
            ),
    {
        response::error_response(
            500,
            "CREATE_DIR_FAILED",
            response::message_with("Failed to create wiki dir: ", cause).as_str(),
        )
    }

    /// Tells the name and the path that a file of the form is stored under.
    pub fn target(&self, platform: Platform, name: Option<&str>) -> (r: (String, String))
        ensures
            r.0@ == stored_name(text::optional_view(name)),
            r.1@ == paths::join_named(platform, self.dir(), r.0@),
    {
        let name = match name {
            Some(name) => name.to_owned(),
            None => "uploaded_file.txt".to_owned(),
        };
        let path = paths::joined_named(platform, self.wiki_dir.as_str(), name.as_str());
        (name, path)
    }

    /// Goes on after a file of the form, or ends with the response to one that could not be
    /// stored.
    pub fn take(self, name: &str, outcome: FileOutcome) -> (r: Result<Upload, OmnimindResponse>)
        ensures
            match outcome {
                FileOutcome::NotCreated(cause) => r matches Err(answer) && answer@ == file_failure(
                    "FILE_CREATE_FAILED"@,
                    "Failed to create file "@,
                    name@,
                    cause@,
                ),
                FileOutcome::NotWritten(cause) => r matches Err(answer) && answer@ == file_failure(
                    "FILE_WRITE_FAILED"@,
                    "Failed to write file "@,
                    name@,
                    cause@,
                ),
                FileOutcome::Stored => {
                    &&& r matches Ok(upload)
                    &&& upload.dir() == self.dir()
                    &&& upload.stored() == self.stored().push("wiki/"@ + name@)
                },
            },
    {
        match outcome {
            FileOutcome::NotCreated(cause) => Err(
                file_failed("FILE_CREATE_FAILED", "Failed to create file ", name, cause.as_str()),
            ),
            FileOutcome::NotWritten(cause) => Err(
                file_failed("FILE_WRITE_FAILED", "Failed to write file ", name, cause.as_str()),
            ),
            FileOutcome::Stored => {
                let ghost before = self.stored();
                let Upload { wiki_dir, locations } = self;
                let mut locations = locations;
                locations.push(response::message_with("wiki/", name));
                let r = Upload { wiki_dir, locations };
                assert(r.stored() =~= before.push("wiki/"@ + name@));
                Ok(r)
            },
        }
    }

    /// Answers the upload.
    pub fn finish(self) -> (r: OmnimindResponse)
        ensures
            r@ == upload_answer(self.stored()),
    {
        let ghost all = self.stored();
        let mut items: Vec<Json> = Vec::new();
        let mut i: usize = 0;
        while i < self.locations.len()
            invariant
                i <= self.locations@.len(),
                all == text::views(self.locations@),
                items@.len() == i,
                forall|j: int| 0 <= j < i ==> (#[trigger] items@[j])@ == document_model(all[j]),
            decreases self.locations@.len() - i,
        {
            assert(all[i as int] == self.locations@[i as int]@);
            items.push(
                Fields::new().and("location", Json::text(self.locations[i].as_str())).object(),
            );
            i = i + 1;
        }
        assert(json::items_model(items@) =~= all.map_values(|l: Seq<char>| document_model(l)));
        let first = if self.locations.len() > 0 {
            assert(all[0] == self.locations@[0]@);
            Json::text(self.locations[0].as_str())
        } else {
            Json::Null
        };
        response::success_response(
            Fields::new().and("ok", Json::Bool(true)).and("documents", json::array(items)).and(
                "location",
                first,
            ),
        )
    }
}

/// The boundary of a form is all that stands behind `boundary=` in a header of the type
/// `multipart/form-data`, whatever the case of the header's name; a header of any other name or
/// type gives none, and of several headers the first that gives one counts.
pub proof fn boundary_is_read(
    before: Seq<char>,
    found: Seq<char>,
    name: Seq<char>,
    headers: Seq<(Seq<char>, Seq<char>)>,
)
    requires
        !text::contains(before + "boundary"@, "boundary="@),
        text::ascii_lower(name) == "content-type"@,
        text::contains(
            text::unicode_lower(before + "boundary="@ + found),
            "multipart/form-data"@,
        ),
    ensures
        boundary_in(name, before + "boundary="@ + found) == Some(found),
        boundary(seq![(name, before + "boundary="@ + found)] + headers) == Some(found),
        headers.len() > 0 && boundary_in(headers[0].0, headers[0].1) is None ==> boundary(headers)
            == boundary(headers.drop_first()),
        boundary(Seq::empty()) is None,
{
    let value = before + "boundary="@ + found;
    let at = before.len() as int;
    assert("boundary="@ =~= "boundary"@.push('=')) by {
        reveal_strlit("boundary=");
        reveal_strlit("boundary");
    }
    assert("boundary"@.len() == 8) by {
        reveal_strlit("boundary");
    }
    lemma_mark_found(before, "boundary"@, found);
    assert(value.skip(at + 9) =~= found);
    let all = seq![(name, value)] + headers;
    assert(all[0] == (name, value));
}

proof fn lemma_mark_found(before: Seq<char>, word: Seq<char>, found: Seq<char>)
    requires
        !text::contains(before + word, word.push('=')),
    ensures
        text::find(before + word.push('=') + found, word.push('='), 0) == Some(before.len() as int),
{
    let mark = word.push('=');
    let value = before + mark + found;
    let head = before + word;
    let at = before.len() as int;
    assert(value.subrange(at, at + mark.len()) =~= mark);
    assert forall|j: int| 0 <= j < at implies !text::occurs_at(value, mark, j) by {
        if text::occurs_at(value, mark, j) {
            assert(head.subrange(j, j + mark.len()) =~= value.subrange(j, j + mark.len()));
            assert(text::occurs_at(head, mark, j));
        }
    }
    text::lemma_found(value, mark, 0, at);
}

/// A header that is no content type, or not that of a form, gives no boundary.
pub proof fn other_headers_give_none(name: Seq<char>, value: Seq<char>)
    ensures
        text::ascii_lower(name) != "content-type"@ ==> boundary_in(name, value) is None,
        !text::contains(text::unicode_lower(value), "multipart/form-data"@) ==> boundary_in(
            name,
            value,
        ) is None,
        !text::contains(value, "boundary="@) ==> boundary_in(name, value) is None,
{
    reveal_strlit("boundary=");
    if !text::contains(value, "boundary="@) {
        assert forall|j: int| 0 <= j implies !text::occurs_at(value, "boundary="@, j) by {
            if text::occurs_at(value, "boundary="@, j) {
                assert(text::contains(value, "boundary="@));
            }
        }
        text::lemma_not_found(value, "boundary="@, 0);
    }
}

/// An upload goes to the project that its query names, where that is known; else to the current
/// project, else to the first.
pub proof fn upload_goes_to_named_project(
    query: Seq<char>,
    projects: Seq<ProjectModel>,
    platform: Platform,
)
    ensures
        ({
            let named = url::parameter(url::query_parameters(query), "projectId"@);
            &&& named is Some && projects::resolved(named->0, projects, platform) is Ok
                ==> upload_project(query, projects, platform) == Some(
                projects::resolved(named->0, projects, platform)->Ok_0,
            )
            &&& (named is None || projects::resolved(named->0, projects, platform) is Err)
                && projects::target(None, projects, platform) is Ok ==> upload_project(
                query,
                projects,
                platform,
            ) == Some(projects::target(None, projects, platform)->Ok_0)
        }),
{
}

/// A file is stored under its own name, and one without a name as `uploaded_file.txt`; a home is
/// `HOME`, else `USERPROFILE`, else the directory that the service runs in.
pub proof fn names_are_kept(name: Seq<char>, home: Seq<char>, user_profile: Option<Seq<char>>)
    ensures
        stored_name(Some(name)) == name,
        stored_name(None) == "uploaded_file.txt"@,
        home_or_here(Some(home), user_profile) == home,
        home_or_here(None, Some(home)) == home,
        home_or_here(None, None) == "."@,
{
}

/// A file that could not be stored is answered with its name and why.
pub proof fn unstored_file_is_told(
    code: Seq<char>,
    beginning: Seq<char>,
    name: Seq<char>,
    cause: Seq<char>,
)
    ensures
        response::tells_error(
            file_failure(code, beginning, name, cause),
            500,
            code,
            beginning + name + ": "@ + cause,
        ),
{
    response::errors_are_told(500, code, beginning + name + ": "@ + cause);
}

/// An upload is answered with the place of each file that was stored, in order, and with the first of
/// them by itself.
pub proof fn upload_is_answered(locations: Seq<Seq<char>>, i: int)
    ensures
        ({
            let value = upload_answer(locations).body;
            &&& value.field("ok"@) == Some(JsonModel::Bool(true))
            &&& value.field("documents"@) == Some(
                JsonModel::Array(locations.map_values(|l: Seq<char>| document_model(l))),
            )
        }),
        upload_answer(locations).status == 200,
        upload_answer(locations).body->Object_0.len() == 3,
        locations.len() > 0 ==> upload_answer(locations).body.field("location"@) == Some(
            JsonModel::Text(locations[0]),
        ),
        locations.len() == 0 ==> upload_answer(locations).body.field("location"@) == Some(
            JsonModel::Null,
        ),
        0 <= i < locations.len() ==> document_model(locations[i]).field("location"@) == Some(
            JsonModel::Text(locations[i]),
        ),
{
    reveal_strlit("ok");
    reveal_strlit("documents");
    assert("ok"@.len() == 2 && "documents"@.len() == 9);
    reveal_strlit("location");
    assert("location"@.len() == 8);
    let fields = (upload_answer(locations).body)->Object_0;
    assert(fields[2].0 == "location"@);
    if 0 <= i < locations.len() {
        let document = document_model(locations[i])->Object_0;
        assert(document[0] == ("location"@, JsonModel::Text(locations[i])));
        json::each_field_is_read(document);
    }
    assert(fields[0] == ("ok"@, JsonModel::Bool(true)));
    assert(fields[1] == (
        "documents"@,
        JsonModel::Array(locations.map_values(|l: Seq<char>| document_model(l))),
    ));
    json::each_field_is_read(fields);
}

/// Headers are taken by name and value, in their order, and a project for what it is.
pub proof fn headers_are_taken_as_they_are(
    headers: Seq<(String, String)>,
    project: Option<ProjectEntry>,
    i: int,
)
    ensures
        header_views(headers).len() == headers.len(),
        0 <= i < headers.len() ==> header_views(headers)[i] == (headers[i].0@, headers[i].1@),
        optional_project(project) is Some == project is Some,
        project matches Some(p) ==> optional_project(project) == Some(p@),
{
}

} // verus!

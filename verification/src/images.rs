//! The endpoint that takes the images out of a document into the wiki.
use crate::files;
use crate::files::PathKind;
use crate::json;
use crate::json::{Fields, Json, JsonModel};
use crate::paths;
use crate::projects::ProjectEntry;
use crate::response;
use crate::response::{OmnimindResponse, ResponseModel};
use crate::startup::Platform;
use crate::text;
use vstd::prelude::*;
use vstd::string::*;

verus! {

/// A request to take the images out of a document.
pub struct ExtractImagesRequest {
    pub source_path: String,
}

/// A document that was asked for, and where it is to be found.
pub struct ImageSource {
    pub project: ProjectEntry,
    pub source_path: String,
    pub full_path: String,
}

/// The document that a request asks for, or why it is refused.
pub open spec fn document_path(
    request: Result<ExtractImagesRequest, String>,
    project: Result<ProjectEntry, String>,
    platform: Platform,
) -> Result<Seq<char>, ResponseModel> {
    match request {
        Err(cause) => Err(response::invalid_json(cause@)),
        Ok(request) => if text::trim(request.source_path@).len() == 0 {
            Err(
                response::failure(400, "SOURCE_PATH_REQUIRED"@, "sourcePath must not be empty"@),
            )
        } else {
            match project {
                Err(message) => Err(files::not_found(message@)),
                Ok(project) => match paths::inside(
                    platform,
                    project.path@,
                    request.source_path@,
                ) {
                    Ok(path) => Ok(path),
                    Err(message) => Err(response::failure(400, "INVALID_PATH"@, message)),
                },
            }
        },
    }
}

/// Finds the document that a request asks for, or refuses it.
pub fn handle_extract_images(
    request: Result<ExtractImagesRequest, String>,
    project: Result<ProjectEntry, String>,
    platform: Platform,
) -> (r: Result<ImageSource, OmnimindResponse>)
    ensures
        match r {
            Ok(source) => {
                &&& document_path(request, project, platform) == Ok::<Seq<char>, ResponseModel>(
                    source.full_path@,
                )
                &&& project == Ok::<ProjectEntry, String>(source.project)
                &&& request matches Ok(request) && request.source_path == source.source_path
            },
            Err(answer) => document_path(request, project, platform) == Err::<Seq<char>, ResponseModel>(
                answer@,
            ),
        },
{
    let request = match request {
        Ok(request) => request,
        Err(cause) => {
            return Err(response::invalid_json_response(cause.as_str()));
        },
    };
    if text::is_blank(request.source_path.as_str()) {
        return Err(
            response::error_response(400, "SOURCE_PATH_REQUIRED", "sourcePath must not be empty"),
        );
    }
    let project = match project {
        Ok(project) => project,
        Err(message) => {
            return Err(files::project_not_found(message.as_str()));
        },
    };
    match paths::safe_join(platform, project.path.as_str(), request.source_path.as_str()) {
        Ok(full_path) => Ok(ImageSource { project, source_path: request.source_path, full_path }),
        Err(message) => Err(response::error_response(400, "INVALID_PATH", message.as_str())),
    }
}

/// The kinds of documents that images are taken out of.
#[derive(Clone, Copy, Debug, PartialEq, Eq, Structural)]
pub enum DocumentKind {
    Pdf,
    Office,
}

/// The extension of a document in small letters; empty where there is none.
pub open spec fn small_extension(path: Seq<char>) -> Seq<char> {
    match paths::path_extension(path) {
        Some(ext) => text::ascii_lower(ext),
        None => Seq::empty(),
    }
}

/// The kind of a document, by its extension, if images are taken out of it.
pub open spec fn document_kind(path: Seq<char>) -> Option<DocumentKind> {
    let ext = small_extension(path);
    if ext == "pdf"@ {
        Some(DocumentKind::Pdf)
    } else if ext == "pptx"@ || ext == "docx"@ || ext == "xlsx"@ {
        Some(DocumentKind::Office)
    } else {
        None
    }
}

/// Tells the kind of a document.
fn kind_of(path: &str) -> (r: Option<DocumentKind>)
    ensures
        r == document_kind(path@),
{
    let ext = match paths::extension_of(path) {
        Some(ext) => text::ascii_lowered(ext.as_str()),
        None => {
            proof {
                reveal_strlit("pdf");
                reveal_strlit("pptx");
                reveal_strlit("docx");
                reveal_strlit("xlsx");
                assert("pdf"@.len() == 3 && "pptx"@.len() == 4 && "docx"@.len() == 4
                    && "xlsx"@.len() == 4);
            }
            return None;
        },
    };
    let ext = ext.as_str();
    if text::same_text(ext, "pdf") {
        Some(DocumentKind::Pdf)
    } else if text::same_text(ext, "pptx") || text::same_text(ext, "docx") || text::same_text(
        ext,
        "xlsx",
    ) {
        Some(DocumentKind::Office)
    } else {
        None
    }
}

/// The name of the directory that the images of a document go to.
pub open spec fn slug_for(path: Seq<char>) -> Seq<char> {
    paths::media_slug(
        match paths::file_name(path) {
            Some(name) => name,
            None => "source"@,
        },
    )
}

/// The work of taking the images out of a document.
pub struct ImagePlan {
    pub kind: DocumentKind,
    pub project: ProjectEntry,
    pub source_path: String,
    pub full_path: String,
    pub wiki_root: String,
    pub media_dir: String,
    pub slug: String,
}

/// Why no images are taken out of a document, if none are.
pub open spec fn document_refusal(path: Seq<char>, kind: PathKind) -> Option<ResponseModel> {
    match kind {
        PathKind::Missing => Some(
            response::failure(404, "SOURCE_NOT_FOUND"@, "Source file does not exist"@),
        ),
        PathKind::Directory => Some(
            response::failure(400, "SOURCE_NOT_FILE"@, "sourcePath must point to a file"@),
        ),
        PathKind::File => match document_kind(path) {
            Some(_) => None,
            None => Some(
                response::failure(
                    400,
                    "UNSUPPORTED_SOURCE_TYPE"@,
                    "Only pdf, pptx, docx and xlsx support explicit image extraction"@,
                ),
            ),
        },
    }
}

impl ImageSource {
    /// Plans the work, or refuses it, once it is known what the document's path leads to. The
    /// images go below `wiki/media` into a directory of their own.
    pub fn plan(self, kind: PathKind) -> (r: Result<ImagePlan, OmnimindResponse>)
        ensures
            match r {
                Ok(plan) => {
                    &&& document_refusal(self.full_path@, kind) is None
                    &&& document_kind(self.full_path@) == Some(plan.kind)
                    &&& plan.project == self.project
                    &&& plan.source_path == self.source_path
                    &&& plan.full_path == self.full_path
                    &&& plan.wiki_root@ == paths::join(self.project.path@, "wiki"@)
                    &&& plan.slug@ == slug_for(self.full_path@)
                    &&& plan.media_dir@ == paths::join(
                        paths::join(plan.wiki_root@, "media"@),
                        plan.slug@,
                    )
                },
                Err(answer) => document_refusal(self.full_path@, kind) == Some(answer@),
            },
    {
        match kind {
            PathKind::Missing => {
                return Err(
                    response::error_response(404, "SOURCE_NOT_FOUND", "Source file does not exist"),
                );
            },
            PathKind::Directory => {
                return Err(
                    response::error_response(
                        400,
                        "SOURCE_NOT_FILE",
                        "sourcePath must point to a file",
                    ),
                );
            },
            PathKind::File => {},
        }
        let document = match kind_of(self.full_path.as_str()) {
            Some(document) => document,
            None => {
                return Err(
                    response::error_response(
                        400,
                        "UNSUPPORTED_SOURCE_TYPE",
                        "Only pdf, pptx, docx and xlsx support explicit image extraction",
                    ),
                );
            },
        };
        let name = match paths::file_name_of(self.full_path.as_str()) {
            Some(name) => name,
            None => "source".to_owned(),
        };
        let slug = paths::safe_media_slug(name.as_str());
        let wiki_root = paths::joined(self.project.path.as_str(), "wiki");
        let media_dir = paths::joined(
            paths::joined(wiki_root.as_str(), "media").as_str(),
            slug.as_str(),
        );
        let ImageSource { project, source_path, full_path } = self;
        Ok(ImagePlan { kind: document, project, source_path, full_path, wiki_root, media_dir, slug })
    }
}

/// The response with the images that were taken out of a document.
pub open spec fn images_answer(plan: ImagePlan, images: Result<Vec<Json>, String>) -> ResponseModel {
    match images {
        Ok(images) => response::success(
            json::no_fields().push(("ok"@, JsonModel::Bool(true))).push(
                ("projectId"@, JsonModel::Text(plan.project.id@)),
            ).push(("sourcePath"@, JsonModel::Text(plan.source_path@))).push(
                ("mediaDir"@, JsonModel::Text("wiki/media/"@ + plan.slug@)),
            ).push(("images"@, JsonModel::Array(json::items_model(images@)))),
        ),
        Err(message) => response::failure(500, "EXTRACT_IMAGES_FAILED"@, message@),
    }
}

impl ImagePlan {
    /// Answers with the images that were taken out of the document.
    pub fn respond(self, images: Result<Vec<Json>, String>) -> (r: OmnimindResponse)
        ensures
            r@ == images_answer(self, images),
    {
        match images {
            Ok(images) => {
                let dir = response::message_with("wiki/media/", self.slug.as_str());
                response::success_response(
                    Fields::new().and("ok", Json::Bool(true)).and(
                        "projectId",
                        Json::Text(self.project.id),
                    ).and("sourcePath", Json::Text(self.source_path)).and(
                        "mediaDir",
                        Json::Text(dir),
                    ).and("images", json::array(images)),
                )
            },
            Err(message) => response::error_response(
                500,
                "EXTRACT_IMAGES_FAILED",
                message.as_str(),
            ),
        }
    }
}

/// Images are taken out of documents with the extensions `pdf`, `pptx`, `docx` and `xlsx`, in
/// letters of either case, and of no others.
pub proof fn document_kinds_are_told(path: Seq<char>, ext: Seq<char>)
    ensures
        paths::path_extension(path) == Some(ext) ==> {
            let small = text::ascii_lower(ext);
            &&& document_kind(path) == Some(DocumentKind::Pdf) <==> small == "pdf"@
            &&& document_kind(path) == Some(DocumentKind::Office) <==> small == "pptx"@ || small
                == "docx"@ || small == "xlsx"@
        },
        paths::path_extension(path) is None ==> document_kind(path) is None,
{
    reveal_strlit("pdf");
    reveal_strlit("pptx");
    reveal_strlit("docx");
    reveal_strlit("xlsx");
    assert("pdf"@.len() == 3 && "pptx"@.len() == 4 && "docx"@.len() == 4);
    assert("xlsx"@.len() == 4 && "pptx"@[0] == 'p' && "docx"@[0] == 'd');
    assert("xlsx"@[0] == 'x');
}

/// A document whose images are to be taken out has to be a file of such a kind: nothing there is
/// answered with 404, and a directory or a document of another kind with 400.
pub proof fn documents_are_judged(path: Seq<char>)
    ensures
        document_refusal(path, PathKind::Missing) matches Some(answer) && response::tells_error(
            answer,
            404,
            "SOURCE_NOT_FOUND"@,
            "Source file does not exist"@,
        ),
        document_refusal(path, PathKind::Directory) matches Some(answer) && response::tells_error(
            answer,
            400,
            "SOURCE_NOT_FILE"@,
            "sourcePath must point to a file"@,
        ),
        document_kind(path) is Some ==> document_refusal(path, PathKind::File) is None,
        document_kind(path) is None ==> (document_refusal(path, PathKind::File) matches Some(answer)
            && response::tells_error(
            answer,
            400,
            "UNSUPPORTED_SOURCE_TYPE"@,
            "Only pdf, pptx, docx and xlsx support explicit image extraction"@,
        )),
{
    response::errors_are_told(404, "SOURCE_NOT_FOUND"@, "Source file does not exist"@);
    response::errors_are_told(400, "SOURCE_NOT_FILE"@, "sourcePath must point to a file"@);
    response::errors_are_told(
        400,
        "UNSUPPORTED_SOURCE_TYPE"@,
        "Only pdf, pptx, docx and xlsx support explicit image extraction"@,
    );
}

/// A request for images names a path that is not blank, of a known project, that leads nowhere out
/// of it; otherwise it is refused.
pub proof fn image_requests_are_judged(
    request: ExtractImagesRequest,
    project: ProjectEntry,
    message: String,
    platform: Platform,
)
    ensures
        text::trim(request.source_path@).len() == 0 ==> (document_path(
            Ok(request),
            Ok(project),
            platform,
        ) matches Err(answer) && response::tells_error(
            answer,
            400,
            "SOURCE_PATH_REQUIRED"@,
            "sourcePath must not be empty"@,
        )),
        text::trim(request.source_path@).len() > 0 ==> {
            &&& paths::inside(platform, project.path@, request.source_path@) matches Ok(path)
                ==> document_path(Ok(request), Ok(project), platform) == Ok::<
                Seq<char>,
                ResponseModel,
            >(path)
            &&& paths::inside(platform, project.path@, request.source_path@) matches Err(reason)
                ==> (document_path(Ok(request), Ok(project), platform) matches Err(answer)
                && response::tells_error(answer, 400, "INVALID_PATH"@, reason))
            &&& document_path(Ok(request), Err(message), platform) matches Err(answer)
                && response::tells_error(answer, 404, "PROJECT_NOT_FOUND"@, message@)
        },
        document_path(Err(message), Ok(project), platform) == Err::<Seq<char>, ResponseModel>(
            response::invalid_json(message@),
        ),
{
    response::errors_are_told(400, "SOURCE_PATH_REQUIRED"@, "sourcePath must not be empty"@);
    response::errors_are_told(404, "PROJECT_NOT_FOUND"@, message@);
    match paths::inside(platform, project.path@, request.source_path@) {
        Ok(_) => {},
        Err(reason) => {
            response::errors_are_told(400, "INVALID_PATH"@, reason);
        },
    }
}

/// The images of a document go to a directory that is named after its file.
pub proof fn images_go_by_file_name(dir: Seq<char>, name: Seq<char>)
    requires
        name.len() > 0,
        !name.contains('/'),
        name != seq!['.'],
        name != seq!['.', '.'],
    ensures
        slug_for(dir + seq!['/'] + name) == paths::media_slug(name),
{
    paths::plain_name_is_file_name(dir, name);
}

/// The images of a document are answered with the document, the directory that they went to, and the
/// images.
pub proof fn images_are_answered(plan: ImagePlan, images: Vec<Json>, message: String)
    ensures
        ({
            let value = images_answer(plan, Ok(images)).body;
            &&& value->Object_0.len() == 5
            &&& value.field("ok"@) == Some(JsonModel::Bool(true))
            &&& value.field("projectId"@) == Some(JsonModel::Text(plan.project.id@))
            &&& value.field("sourcePath"@) == Some(JsonModel::Text(plan.source_path@))
            &&& value.field("mediaDir"@) == Some(JsonModel::Text("wiki/media/"@ + plan.slug@))
            &&& value.field("images"@) == Some(JsonModel::Array(json::items_model(images@)))
        }),
        images_answer(plan, Ok(images)).status == 200,
        response::tells_error(
            images_answer(plan, Err(message)),
            500,
            "EXTRACT_IMAGES_FAILED"@,
            message@,
        ),
{
    reveal_strlit("ok");
    reveal_strlit("projectId");
    reveal_strlit("sourcePath");
    reveal_strlit("mediaDir");
    reveal_strlit("images");
    assert("ok"@.len() == 2 && "projectId"@.len() == 9 && "sourcePath"@.len() == 10);
    assert("mediaDir"@.len() == 8 && "images"@.len() == 6);
    let fields = (images_answer(plan, Ok(images)).body)->Object_0;
    assert(fields[0] == ("ok"@, JsonModel::Bool(true)));
    assert(fields[1] == ("projectId"@, JsonModel::Text(plan.project.id@)));
    assert(fields[2] == ("sourcePath"@, JsonModel::Text(plan.source_path@)));
    assert(fields[3] == ("mediaDir"@, JsonModel::Text("wiki/media/"@ + plan.slug@)));
    assert(fields[4] == ("images"@, JsonModel::Array(json::items_model(images@))));
    json::each_field_is_read(fields);
    response::errors_are_told(500, "EXTRACT_IMAGES_FAILED"@, message@);
}

/// A path that ends with no file name, such as the one of a root, goes where a document named
/// `source` would.
pub proof fn nameless_document_is_source(path: Seq<char>, dir: Seq<char>)
    requires
        paths::file_name(path) is None,
    ensures
        slug_for(path) == slug_for(dir + seq!['/', 's', 'o', 'u', 'r', 'c', 'e']),
{
    reveal_strlit("source");
    let name = seq!['s', 'o', 'u', 'r', 'c', 'e'];
    assert("source"@ =~= name);
    assert(name.len() == 6);
    images_go_by_file_name(dir, name);
    assert(dir + seq!['/'] + name =~= dir + seq!['/', 's', 'o', 'u', 'r', 'c', 'e']);
}

} // verus!

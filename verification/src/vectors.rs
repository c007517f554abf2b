//! The endpoints on the vector index: what is told of it, and what of its failures.
use crate::files;
use crate::json;
use crate::json::{Fields, Json, JsonModel};
use crate::projects::ProjectEntry;
use crate::response;
use crate::response::{OmnimindResponse, ResponseModel};
use vstd::prelude::*;
use vstd::string::*;

verus! {

/// Takes up a request whose body comes first and whose project second, or refuses it.
pub fn body_then_project<T>(
    request: Result<T, String>,
    project: Result<ProjectEntry, String>,
) -> (r: Result<(T, ProjectEntry), OmnimindResponse>)
    ensures
        match (request, project) {
            (Err(cause), _) => r matches Err(answer) && answer@ == response::invalid_json(cause@),
            (Ok(_), Err(message)) => r matches Err(answer) && answer@ == files::not_found(message@),
            (Ok(request), Ok(project)) => r == Ok::<(T, ProjectEntry), OmnimindResponse>(
                (request, project),
            ),
        },
{
    match request {
        Err(cause) => Err(response::invalid_json_response(cause.as_str())),
        Ok(request) => match project {
            Err(message) => Err(files::project_not_found(message.as_str())),
            Ok(project) => Ok((request, project)),
        },
    }
}

/// Takes up a request whose project comes first and whose body second, or refuses it.
pub fn project_then_body<T>(
    project: Result<ProjectEntry, String>,
    request: Result<T, String>,
) -> (r: Result<(ProjectEntry, T), OmnimindResponse>)
    ensures
        match (project, request) {
            (Err(message), _) => r matches Err(answer) && answer@ == files::not_found(message@),
            (Ok(_), Err(cause)) => r matches Err(answer) && answer@ == response::invalid_json(
                cause@,
            ),
            (Ok(project), Ok(request)) => r == Ok::<(ProjectEntry, T), OmnimindResponse>(
                (project, request),
            ),
        },
{
    match project {
        Err(message) => Err(files::project_not_found(message.as_str())),
        Ok(project) => match request {
            Err(cause) => Err(response::invalid_json_response(cause.as_str())),
            Ok(request) => Ok((project, request)),
        },
    }
}

/// The response that says that all went well, with a message.
pub open spec fn message_success(message: Seq<char>) -> ResponseModel {
    response::success(
        json::no_fields().push(("ok"@, JsonModel::Bool(true))).push(
            ("message"@, JsonModel::Text(message)),
        ),
    )
}

/// The response that says that all went well with the index of a project.
pub open spec fn project_success(project_id: Seq<char>) -> ResponseModel {
    response::success(
        json::no_fields().push(("ok"@, JsonModel::Bool(true))).push(
            ("project_id"@, JsonModel::Text(project_id)),
        ),
    )
}

fn message_response(message: &str) -> (r: OmnimindResponse)
    ensures
        r@ == message_success(message@),
{
    response::success_response(
        Fields::new().and("ok", Json::Bool(true)).and("message", Json::text(message)),
    )
}

fn project_response(project_id: &str) -> (r: OmnimindResponse)
    ensures
        r@ == project_success(project_id@),
{
    response::success_response(
        Fields::new().and("ok", Json::Bool(true)).and("project_id", Json::text(project_id)),
    )
}

/// Answers a request to look for changed files, from what became of it.
pub fn handle_update_embeddings(outcome: Result<(), String>) -> (r: OmnimindResponse)
    ensures
        r@ == (match outcome {
            Ok(_) => response::plain_success(),
            Err(message) => response::failure(500, "RESCAN_FAILED"@, message@),
        }),
{
    match outcome {
        Ok(_) => response::ok_response(),
        Err(message) => response::error_response(500, "RESCAN_FAILED", message.as_str()),
    }
}

/// Answers a request to store the vectors of a page, from what became of it.
pub fn handle_vector_upsert_chunks(outcome: Result<(), String>) -> (r: OmnimindResponse)
    ensures
        r@ == (match outcome {
            Ok(_) => message_success("Vector chunks successfully upserted"@),
            Err(message) => response::failure(500, "VECTOR_UPSERT_FAILED"@, message@),
        }),
{
    match outcome {
        Ok(_) => message_response("Vector chunks successfully upserted"),
        Err(message) => response::error_response(500, "VECTOR_UPSERT_FAILED", message.as_str()),
    }
}

/// Answers a request to delete the vectors of a page, from what became of it.
pub fn handle_vector_delete_page(outcome: Result<(), String>) -> (r: OmnimindResponse)
    ensures
        r@ == (match outcome {
            Ok(_) => message_success("Page vectors successfully deleted"@),
            Err(message) => response::failure(500, "VECTOR_DELETE_FAILED"@, message@),
        }),
{
    match outcome {
        Ok(_) => message_response("Page vectors successfully deleted"),
        Err(message) => response::error_response(500, "VECTOR_DELETE_FAILED", message.as_str()),
    }
}

/// The work on a whole index.
#[derive(Clone, Copy, Debug, PartialEq, Eq, Structural)]
pub enum IndexWork {
    Replace,
    Status,
    Clear,
    Optimize,
}

/// Work on the index of a project that is known.
pub struct IndexPlan {
    pub work: IndexWork,
    pub project: ProjectEntry,
}

/// Whether work on the index of a project is planned if the project is known, and otherwise
/// refused.
pub open spec fn is_planned(
    r: Result<IndexPlan, OmnimindResponse>,
    work: IndexWork,
    project: Result<ProjectEntry, String>,
) -> bool {
    match project {
        Ok(project) => r == Ok::<IndexPlan, OmnimindResponse>(IndexPlan { work, project }),
        Err(message) => r matches Err(answer) && answer@ == files::not_found(message@),
    }
}

fn plan_work(work: IndexWork, project: Result<ProjectEntry, String>) -> (r: Result<
    IndexPlan,
    OmnimindResponse,
>)
    ensures
        is_planned(r, work, project),
{
    match files::known_project(project) {
        Ok(project) => Ok(IndexPlan { work, project }),
        Err(answer) => Err(answer),
    }
}

/// Takes up a request for the size of an index, or refuses it.
pub fn handle_vector_index_status(project: Result<ProjectEntry, String>) -> (r: Result<
    IndexPlan,
    OmnimindResponse,
>)
    ensures
        is_planned(r, IndexWork::Status, project),
{
    plan_work(IndexWork::Status, project)
}

/// Takes up a request to clear an index, or refuses it.
pub fn handle_vector_clear_chunks(project: Result<ProjectEntry, String>) -> (r: Result<
    IndexPlan,
    OmnimindResponse,
>)
    ensures
        is_planned(r, IndexWork::Clear, project),
{
    plan_work(IndexWork::Clear, project)
}

/// Takes up a request to optimize an index, or refuses it.
pub fn handle_vector_optimize_chunks(project: Result<ProjectEntry, String>) -> (r: Result<
    IndexPlan,
    OmnimindResponse,
>)
    ensures
        is_planned(r, IndexWork::Optimize, project),
{
    plan_work(IndexWork::Optimize, project)
}

/// The response where the work on an index failed: the same whatever went wrong inside.
pub open spec fn index_failure(work: IndexWork) -> ResponseModel {
    match work {
        IndexWork::Replace => response::failure(
            500,
            "VECTOR_INDEX_REPLACE_FAILED"@,
            "Unable to replace vector index"@,
        ),
        IndexWork::Status => response::failure(
            500,
            "VECTOR_INDEX_STATUS_FAILED"@,
            "Unable to read vector index status"@,
        ),
        IndexWork::Clear => response::failure(
            500,
            "VECTOR_INDEX_CLEAR_FAILED"@,
            "Unable to clear vector index"@,
        ),
        IndexWork::Optimize => response::failure(
            500,
            "VECTOR_INDEX_OPTIMIZE_FAILED"@,
            "Unable to optimize vector index"@,
        ),
    }
}

fn index_failed(work: IndexWork) -> (r: OmnimindResponse)
    ensures
        r@ == index_failure(work),
{
    match work {
        IndexWork::Replace => response::error_response(
            500,
            "VECTOR_INDEX_REPLACE_FAILED",
            "Unable to replace vector index",
        ),
        IndexWork::Status => response::error_response(
            500,
            "VECTOR_INDEX_STATUS_FAILED",
            "Unable to read vector index status",
        ),
        IndexWork::Clear => response::error_response(
            500,
            "VECTOR_INDEX_CLEAR_FAILED",
            "Unable to clear vector index",
        ),
        IndexWork::Optimize => response::error_response(
            500,
            "VECTOR_INDEX_OPTIMIZE_FAILED",
            "Unable to optimize vector index",
        ),
    }
}

/// The response to a replacement whose vectors cannot be read: the same whatever is wrong in
/// them.
pub open spec fn invalid_vectors() -> ResponseModel {
    response::failure(400, "INVALID_VECTOR_REPLACE"@, "Invalid vector payload"@)
}

/// Takes up a request to replace all vectors, or refuses it without a word of what it holds.
pub fn handle_vector_replace_all_chunks<T>(
    request: Result<T, String>,
    project: Result<ProjectEntry, String>,
) -> (r: Result<(T, ProjectEntry), OmnimindResponse>)
    ensures
        match (request, project) {
            (Err(_), _) => r matches Err(answer) && answer@ == invalid_vectors(),
            (Ok(_), Err(message)) => r matches Err(answer) && answer@ == files::not_found(message@),
            (Ok(request), Ok(project)) => r == Ok::<(T, ProjectEntry), OmnimindResponse>(
                (request, project),
            ),
        },
{
    match request {
        Err(_) => Err(
            response::error_response(400, "INVALID_VECTOR_REPLACE", "Invalid vector payload"),
        ),
        Ok(request) => match project {
            Err(message) => Err(files::project_not_found(message.as_str())),
            Ok(project) => Ok((request, project)),
        },
    }
}

/// The response to a request to replace, clear or optimize an index, from what became of it.
pub open spec fn index_answer(
    project_id: Seq<char>,
    work: IndexWork,
    outcome: Result<(), String>,
) -> ResponseModel {
    match outcome {
        Ok(_) => project_success(project_id),
        Err(_) => index_failure(work),
    }
}

/// Answers a request to replace, clear or optimize an index, from what became of it.
pub fn index_response(project_id: &str, work: IndexWork, outcome: Result<(), String>) -> (r:
    OmnimindResponse)
    ensures
        r@ == index_answer(project_id@, work, outcome),
{
    match outcome {
        Ok(_) => project_response(project_id),
        Err(_) => index_failed(work),
    }
}

/// The response to a request for the size of an index.
pub open spec fn status_answer(project_id: Seq<char>, count: Result<usize, String>) -> ResponseModel {
    match count {
        Ok(count) => response::success(
            json::no_fields().push(("ok"@, JsonModel::Bool(true))).push(
                ("project_id"@, JsonModel::Text(project_id)),
            ).push(("chunk_count"@, JsonModel::UInt(count as nat))),
        ),
        Err(_) => index_failure(IndexWork::Status),
    }
}

/// Answers a request for the size of an index.
pub fn status_response(project_id: &str, count: Result<usize, String>) -> (r:
    OmnimindResponse)
    ensures
        r@ == status_answer(project_id@, count),
{
    match count {
        Ok(count) => response::success_response(
            Fields::new().and("ok", Json::Bool(true)).and(
                "project_id",
                Json::text(project_id),
            ).and("chunk_count", Json::size(count)),
        ),
        Err(_) => index_failed(IndexWork::Status),
    }
}

/// Whatever goes wrong inside an index, its work is answered the same: nothing of the error is
/// told.
pub proof fn index_errors_are_not_told(
    project_id: Seq<char>,
    work: IndexWork,
    a: String,
    b: String,
)
    ensures
        index_answer(project_id, work, Err(a)) == index_answer(project_id, work, Err(b)),
        status_answer(project_id, Err(a)) == status_answer(project_id, Err(b)),
{
}

/// Work on an index that failed is answered by its kind, each with its own code, and vectors that
/// cannot be read are refused with 400.
pub proof fn index_failures_are_told(work: IndexWork)
    ensures
        response::tells_error(
            index_failure(IndexWork::Replace),
            500,
            "VECTOR_INDEX_REPLACE_FAILED"@,
            "Unable to replace vector index"@,
        ),
        response::tells_error(
            index_failure(IndexWork::Status),
            500,
            "VECTOR_INDEX_STATUS_FAILED"@,
            "Unable to read vector index status"@,
        ),
        response::tells_error(
            index_failure(IndexWork::Clear),
            500,
            "VECTOR_INDEX_CLEAR_FAILED"@,
            "Unable to clear vector index"@,
        ),
        response::tells_error(
            index_failure(IndexWork::Optimize),
            500,
            "VECTOR_INDEX_OPTIMIZE_FAILED"@,
            "Unable to optimize vector index"@,
        ),
        response::tells_error(
            invalid_vectors(),
            400,
            "INVALID_VECTOR_REPLACE"@,
            "Invalid vector payload"@,
        ),
{
    response::errors_are_told(
        500,
        "VECTOR_INDEX_REPLACE_FAILED"@,
        "Unable to replace vector index"@,
    );
    response::errors_are_told(
        500,
        "VECTOR_INDEX_STATUS_FAILED"@,
        "Unable to read vector index status"@,
    );
    response::errors_are_told(500, "VECTOR_INDEX_CLEAR_FAILED"@, "Unable to clear vector index"@);
    response::errors_are_told(
        500,
        "VECTOR_INDEX_OPTIMIZE_FAILED"@,
        "Unable to optimize vector index"@,
    );
    response::errors_are_told(400, "INVALID_VECTOR_REPLACE"@, "Invalid vector payload"@);
}

/// Work is planned on the index of the project that was asked about, and is the work asked for; it
/// is never planned for a project that is not known.
pub proof fn work_is_for_known_project(
    plan: IndexPlan,
    answer: OmnimindResponse,
    work: IndexWork,
    project: ProjectEntry,
    message: String,
)
    ensures
        is_planned(Ok(plan), work, Ok(project)) <==> plan.work == work && plan.project == project,
        !is_planned(Ok(plan), work, Err(message)),
        !is_planned(Err(answer), work, Ok(project)),
        is_planned(Err(answer), work, Err(message)) ==> response::tells_error(
            answer@,
            404,
            "PROJECT_NOT_FOUND"@,
            message@,
        ),
{
    response::errors_are_told(404, "PROJECT_NOT_FOUND"@, message@);
}

/// The size of an index is told with its project.
pub proof fn index_status_is_told(project_id: Seq<char>, count: usize)
    ensures
        ({
            let value = status_answer(project_id, Ok(count)).body;
            &&& value->Object_0.len() == 3
            &&& value.field("ok"@) == Some(JsonModel::Bool(true))
            &&& value.field("project_id"@) == Some(JsonModel::Text(project_id))
            &&& value.field("chunk_count"@) == Some(JsonModel::UInt(count as nat))
        }),
        status_answer(project_id, Ok(count)).status == 200,
{
    reveal_strlit("ok");
    reveal_strlit("project_id");
    reveal_strlit("chunk_count");
    assert("ok"@.len() == 2 && "project_id"@.len() == 10 && "chunk_count"@.len() == 11);
    let fields = (status_answer(project_id, Ok(count)).body)->Object_0;
    assert(fields[0] == ("ok"@, JsonModel::Bool(true)));
    assert(fields[1] == ("project_id"@, JsonModel::Text(project_id)));
    assert(fields[2] == ("chunk_count"@, JsonModel::UInt(count as nat)));
    json::each_field_is_read(fields);
}

/// Work on an index that went well is told with its project, and any other as the failure of its
/// kind.
pub proof fn index_work_is_told(project_id: Seq<char>, work: IndexWork, cause: String)
    ensures
        ({
            let value = index_answer(project_id, work, Ok(())).body;
            &&& value->Object_0.len() == 2
            &&& value.field("ok"@) == Some(JsonModel::Bool(true))
            &&& value.field("project_id"@) == Some(JsonModel::Text(project_id))
        }),
        index_answer(project_id, work, Ok(())).status == 200,
        index_answer(project_id, work, Err(cause)) == index_failure(work),
        status_answer(project_id, Err(cause)) == index_failure(IndexWork::Status),
{
    reveal_strlit("ok");
    reveal_strlit("project_id");
    assert("ok"@.len() == 2 && "project_id"@.len() == 10);
    let fields = (index_answer(project_id, work, Ok(())).body)->Object_0;
    assert(fields[0] == ("ok"@, JsonModel::Bool(true)));
    assert(fields[1] == ("project_id"@, JsonModel::Text(project_id)));
    json::each_field_is_read(fields);
}

/// A message of success is told as it is.
pub proof fn message_is_told(message: Seq<char>)
    ensures
        ({
            let value = message_success(message).body;
            &&& value->Object_0.len() == 2
            &&& value.field("ok"@) == Some(JsonModel::Bool(true))
            &&& value.field("message"@) == Some(JsonModel::Text(message))
        }),
        message_success(message).status == 200,
{
    reveal_strlit("ok");
    reveal_strlit("message");
    assert("ok"@.len() == 2 && "message"@.len() == 7);
    let fields = (message_success(message).body)->Object_0;
    assert(fields[0] == ("ok"@, JsonModel::Bool(true)));
    assert(fields[1] == ("message"@, JsonModel::Text(message)));
    json::each_field_is_read(fields);
}

} // verus!

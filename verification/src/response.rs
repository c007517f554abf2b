//! Responses of the service and their error envelope.
use crate::json;
use crate::json::{Fields, Json, JsonModel};
use vstd::prelude::*;
use vstd::string::*;

verus! {

/// The mathematical value of a response.
pub ghost struct ResponseModel {
    pub status: u16,
    pub body: JsonModel,
}

/// An HTTP status with a JSON body.
#[derive(Debug)]
pub struct OmnimindResponse {
    pub status: u16,
    pub body: Json,
}

impl View for OmnimindResponse {
    type V = ResponseModel;

    open spec fn view(&self) -> ResponseModel {
        ResponseModel { status: self.status, body: self.body@ }
    }
}

/// A successful response with these fields.
pub open spec fn success(fields: Seq<(Seq<char>, JsonModel)>) -> ResponseModel {
    ResponseModel { status: 200, body: JsonModel::Object(fields) }
}

/// The response that says only that all went well.
pub open spec fn plain_success() -> ResponseModel {
    success(json::no_fields().push(("ok"@, JsonModel::Bool(true))))
}

/// The error envelope: a status, a stable code and a message.
pub open spec fn failure(status: u16, code: Seq<char>, message: Seq<char>) -> ResponseModel {
    let error = json::no_fields().push(("code"@, JsonModel::Text(code))).push(
        ("message"@, JsonModel::Text(message)),
    );
    ResponseModel {
        status,
        body: JsonModel::Object(
            json::no_fields().push(("ok"@, JsonModel::Bool(false))).push(
                ("error"@, JsonModel::Object(error)),
            ),
        ),
    }
}

/// Makes a successful response with these fields.
pub fn success_response(fields: Fields) -> (r: OmnimindResponse)
    ensures
        r@ == success(fields@),
{
    OmnimindResponse { status: 200, body: fields.object() }
}

/// Makes the response that says only that all went well.
pub fn ok_response() -> (r: OmnimindResponse)
    ensures
        r@ == plain_success(),
{
    success_response(Fields::new().and("ok", Json::Bool(true)))
}

/// Makes an error response.
pub fn error_response(status: u16, code: &str, message: &str) -> (r: OmnimindResponse)
    ensures
        r@ == failure(status, code@, message@),
{
    let error = Fields::new().and("code", Json::text(code)).and("message", Json::text(message));
    let body = Fields::new().and("ok", Json::Bool(false)).and("error", error.object());
    OmnimindResponse { status, body: body.object() }
}

/// The message of an error with its cause behind a fixed beginning.
pub fn message_with(beginning: &str, cause: &str) -> (r: String)
    ensures
        r@ == beginning@ + cause@,
{
    let mut r = beginning.to_owned();
    r.append(cause);
    r
}

/// The response to a request body that is not the JSON that the request asks for.
pub open spec fn invalid_json(cause: Seq<char>) -> ResponseModel {
    failure(400, "INVALID_JSON"@, "Invalid JSON: "@ + cause)
}

/// Makes the response to a request body that is not the JSON that the request asks for.
pub fn invalid_json_response(cause: &str) -> (r: OmnimindResponse)
    ensures
        r@ == invalid_json(cause@),
{
    error_response(400, "INVALID_JSON", message_with("Invalid JSON: ", cause).as_str())
}

/// The text that is sent for a response with no content is empty.
pub fn sends_body(response: &OmnimindResponse) -> (r: bool)
    ensures
        r == (response.status != 204),
{
    response.status != 204
}

/// The headers of every response: any origin may call, and the body is JSON.
pub fn cors_headers() -> (r: Vec<(String, String)>)
    ensures
        r@.len() == 4,
        (r@[0].0@, r@[0].1@) == ("Access-Control-Allow-Origin"@, "*"@),
        (r@[1].0@, r@[1].1@) == ("Access-Control-Allow-Methods"@, "GET, POST, DELETE, OPTIONS"@),
        (r@[2].0@, r@[2].1@) == ("Access-Control-Allow-Headers"@, "Content-Type, Authorization"@),
        (r@[3].0@, r@[3].1@) == ("Content-Type"@, "application/json"@),
{
    vec![
        ("Access-Control-Allow-Origin".to_owned(), "*".to_owned()),
        ("Access-Control-Allow-Methods".to_owned(), "GET, POST, DELETE, OPTIONS".to_owned()),
        ("Access-Control-Allow-Headers".to_owned(), "Content-Type, Authorization".to_owned()),
        ("Content-Type".to_owned(), "application/json".to_owned()),
    ]
}

/// Whether a response is an error of the status, the code and the message: its body says that it
/// is not ok, and holds the code and the message of the error.
pub open spec fn tells_error(
    answer: ResponseModel,
    status: u16,
    code: Seq<char>,
    message: Seq<char>,
) -> bool {
    &&& answer.status == status
    &&& answer.body.field("ok"@) == Some(JsonModel::Bool(false))
    &&& answer.body.field("error"@) matches Some(error) && json::text_field(error, "code"@) == Some(
        code,
    ) && json::text_field(error, "message"@) == Some(message)
}

/// Every error response tells its status, its code and its message.
pub proof fn errors_are_told(status: u16, code: Seq<char>, message: Seq<char>)
    ensures
        tells_error(failure(status, code, message), status, code, message),
{
    reveal_strlit("ok");
    reveal_strlit("error");
    reveal_strlit("code");
    reveal_strlit("message");
    let body = failure(status, code, message).body->Object_0;
    let error = json::no_fields().push(("code"@, JsonModel::Text(code))).push(
        ("message"@, JsonModel::Text(message)),
    );
    assert(body[1].1 == JsonModel::Object(error));
    assert(body[0] == ("ok"@, JsonModel::Bool(false)));
    assert(body[1].0 == "error"@);
    assert(error[0] == ("code"@, JsonModel::Text(code)));
    assert(error[1] == ("message"@, JsonModel::Text(message)));
    assert("code"@.len() == 4 && "message"@.len() == 7 && "ok"@.len() == 2 && "error"@.len() == 5);
    json::each_field_is_read(body);
    json::each_field_is_read(error);
}

/// Success is told with the status 200 and the fields of the response; the plain one says `ok`
/// and no more.
pub proof fn success_is_told(fields: Seq<(Seq<char>, JsonModel)>)
    ensures
        success(fields).status == 200,
        success(fields).body == JsonModel::Object(fields),
        plain_success().status == 200,
        plain_success().body.field("ok"@) == Some(JsonModel::Bool(true)),
        plain_success().body->Object_0.len() == 1,
{
    let body = plain_success().body->Object_0;
    assert(body[0] == ("ok"@, JsonModel::Bool(true)));
    json::each_field_is_read(body);
}

/// A body that cannot be read is refused with the status 400 and told why.
pub proof fn bad_body_is_told(cause: Seq<char>)
    ensures
        tells_error(invalid_json(cause), 400, "INVALID_JSON"@, "Invalid JSON: "@ + cause),
{
    errors_are_told(400, "INVALID_JSON"@, "Invalid JSON: "@ + cause);
}

} // verus!

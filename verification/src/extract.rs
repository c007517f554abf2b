//! The endpoint that reads the text of a document, given by its path in a project or by its
//! bytes.
use crate::files;
use crate::json;
use crate::json::{Fields, Json, JsonModel};
use crate::paths;
use crate::projects;
use crate::projects::{ProjectEntry, ProjectModel};
use crate::response;
use crate::resolve;
use crate::resolve::ResolveStep;
use crate::response::{OmnimindResponse, ResponseModel};
use crate::startup::Platform;
use crate::text;
use crate::text::CharClass;
use base64::Engine;
use vstd::prelude::*;
use vstd::string::*;
use vstd::utf8::*;

verus! {

/// How many bytes a document that is sent may have.
pub const EXTRACT_CONTENT_MAX_BYTES: u64 = 104_857_600;

/// A request for the text of a document.
pub struct ExtractTextRequest {
    pub path: Option<String>,
    pub project_id: Option<String>,
    pub extension: Option<String>,
    pub content_base64: Option<String>,
    pub filename: Option<String>,
}

/// An extension as it is compared: trimmed, without dots in front, in small letters.
pub open spec fn normal_extension(raw: Seq<char>) -> Seq<char> {
    text::unicode_lower(text::trim_start(text::trim(raw), CharClass::Only('.')))
}

/// Writes an extension as it is compared.
pub fn normalize_extract_extension(raw: &str) -> (r: String)
    ensures
        r@ == normal_extension(raw@),
{
    let bare = text::without_prefix_of(text::trimmed(raw).as_str(), CharClass::Only('.'));
    text::unicode_lowered(bare.as_str())
}

/// The extensions of the documents whose text can be read.
pub open spec fn is_readable(e: Seq<char>) -> bool {
    e == "epub"@ || e == "mobi"@ || e == "pdf"@ || e == "doc"@ || e == "docx"@ || e == "pptx"@
        || e == "ppt"@ || e == "xls"@ || e == "xlsx"@ || e == "odt"@ || e == "ods"@
        || e == "odp"@ || e == "txt"@ || e == "md"@ || e == "markdown"@ || e == "org"@
        || e == "csv"@ || e == "tsv"@ || e == "html"@ || e == "htm"@ || e == "json"@
        || e == "xml"@ || e == "yaml"@ || e == "yml"@ || e == "toml"@ || e == "log"@
        || e == "rst"@ || e == "text"@
}

/// Tests whether the text of a document with that extension can be read.
pub fn is_extract_text_allowed_ext(extension: &str) -> (r: bool)
    ensures
        r == is_readable(extension@),
{
    text::same_text(extension, "epub") || text::same_text(extension, "mobi")
        || text::same_text(extension, "pdf") || text::same_text(extension, "doc")
        || text::same_text(extension, "docx") || text::same_text(extension, "pptx")
        || text::same_text(extension, "ppt") || text::same_text(extension, "xls")
        || text::same_text(extension, "xlsx") || text::same_text(extension, "odt")
        || text::same_text(extension, "ods") || text::same_text(extension, "odp")
        || text::same_text(extension, "txt") || text::same_text(extension, "md")
        || text::same_text(extension, "markdown") || text::same_text(extension, "org")
        || text::same_text(extension, "csv") || text::same_text(extension, "tsv")
        || text::same_text(extension, "html") || text::same_text(extension, "htm")
        || text::same_text(extension, "json") || text::same_text(extension, "xml")
        || text::same_text(extension, "yaml") || text::same_text(extension, "yml")
        || text::same_text(extension, "toml") || text::same_text(extension, "log")
        || text::same_text(extension, "rst") || text::same_text(extension, "text")
}

/// The extension of a document whose text can be read is made of small letters.
pub proof fn readable_is_plain(e: Seq<char>)
    requires
        is_readable(e),
    ensures
        e.len() > 0,
        forall|i: int| 0 <= i < e.len() ==> 'a' <= #[trigger] e[i] && e[i] <= 'z',
{
    if e == "epub"@ {
        reveal_strlit("epub");
    }
    if e == "mobi"@ {
        reveal_strlit("mobi");
    }
    if e == "pdf"@ {
        reveal_strlit("pdf");
    }
    if e == "doc"@ {
        reveal_strlit("doc");
    }
    if e == "docx"@ {
        reveal_strlit("docx");
    }
    if e == "pptx"@ {
        reveal_strlit("pptx");
    }
    if e == "ppt"@ {
        reveal_strlit("ppt");
    }
    if e == "xls"@ {
        reveal_strlit("xls");
    }
    if e == "xlsx"@ {
        reveal_strlit("xlsx");
    }
    if e == "odt"@ {
        reveal_strlit("odt");
    }
    if e == "ods"@ {
        reveal_strlit("ods");
    }
    if e == "odp"@ {
        reveal_strlit("odp");
    }
    if e == "txt"@ {
        reveal_strlit("txt");
    }
    if e == "md"@ {
        reveal_strlit("md");
    }
    if e == "markdown"@ {
        reveal_strlit("markdown");
    }
    if e == "org"@ {
        reveal_strlit("org");
    }
    if e == "csv"@ {
        reveal_strlit("csv");
    }
    if e == "tsv"@ {
        reveal_strlit("tsv");
    }
    if e == "html"@ {
        reveal_strlit("html");
    }
    if e == "htm"@ {
        reveal_strlit("htm");
    }
    if e == "json"@ {
        reveal_strlit("json");
    }
    if e == "xml"@ {
        reveal_strlit("xml");
    }
    if e == "yaml"@ {
        reveal_strlit("yaml");
    }
    if e == "yml"@ {
        reveal_strlit("yml");
    }
    if e == "toml"@ {
        reveal_strlit("toml");
    }
    if e == "log"@ {
        reveal_strlit("log");
    }
    if e == "rst"@ {
        reveal_strlit("rst");
    }
    if e == "text"@ {
        reveal_strlit("text");
    }
}

/// How many bytes a base64 text of some bytes stands for at most.
pub open spec fn decoded_estimate(len: nat) -> nat {
    if len * 3 > u64::MAX {
        (u64::MAX / 4) as nat
    } else {
        len * 3 / 4
    }
}

/// Estimates how many bytes a base64 text of some bytes stands for.
pub fn estimated_base64_decoded_len(b64_len: usize) -> (r: u64)
    ensures
        r == decoded_estimate(b64_len as nat),
{
    let len: u64 = b64_len as u64;
    if len > u64::MAX / 3 {
        u64::MAX / 4
    } else {
        len * 3 / 4
    }
}

/// Tests whether a document that is sent is small enough.
pub fn content_bytes_within_limit(decoded_len: usize) -> (r: Result<(), String>)
    ensures
        match r {
            Ok(_) => decoded_len <= EXTRACT_CONTENT_MAX_BYTES,
            Err(message) => decoded_len > EXTRACT_CONTENT_MAX_BYTES && message@
                == "Decoded content exceeds the 100 MB limit"@,
        },
{
    if decoded_len as u64 > EXTRACT_CONTENT_MAX_BYTES {
        Err("Decoded content exceeds the 100 MB limit".to_owned())
    } else {
        Ok(())
    }
}

/// A character of a file name, with an underscore for one that does not belong there.
pub open spec fn clean_char(c: char) -> char {
    if c == '/' || c == '\\' || text::is_control_code(c) {
        '_'
    } else {
        c
    }
}

/// A file name with underscores for what does not belong there.
pub open spec fn cleaned(name: Seq<char>) -> Seq<char> {
    name.map_values(|c: char| clean_char(c))
}

/// The last part of a path that names a file; all of it where there is none.
pub open spec fn base_name(platform: Platform, raw: Seq<char>) -> Seq<char> {
    match paths::named_file(platform, raw) {
        Some(name) => name,
        None => raw,
    }
}

/// The name under which a document that was sent is shown.
pub open spec fn memory_name(
    platform: Platform,
    filename: Option<Seq<char>>,
    extension: Seq<char>,
) -> Seq<char> {
    let fallback = "upload."@ + extension;
    match filename {
        None => fallback,
        Some(filename) => {
            let raw = text::trim(filename);
            let name = cleaned(base_name(platform, raw));
            if raw.len() == 0 || name.len() == 0 || name == "."@ || name == ".."@ {
                fallback
            } else {
                name
            }
        },
    }
}

/// Cleans a file name.
fn clean_text(name: &str) -> (r: String)
    ensures
        r@ == cleaned(name@),
{
    let v = text::chars_of(name);
    let mut r = String::new();
    let mut i: usize = 0;
    assert(r@ =~= cleaned(name@).take(0));
    while i < v.len()
        invariant
            i <= v@.len(),
            v@ == name@,
            r@ == cleaned(name@).take(i as int),
        decreases v@.len() - i,
    {
        let c = v[i];
        if c == '/' || c == '\\' || c.is_control() {
            r.push('_');
        } else {
            r.push(c);
        }
        assert(r@ =~= cleaned(name@).take(i + 1));
        i = i + 1;
    }
    assert(cleaned(name@).take(i as int) =~= cleaned(name@));
    r
}

/// Makes the name under which a document that was sent is shown.
pub fn sanitize_memory_filename(platform: Platform, filename: Option<&str>, extension: &str) -> (r:
    String)
    ensures
        r@ == memory_name(platform, text::optional_view(filename), extension@),
{
    let fallback = response::message_with("upload.", extension);
    let filename = match filename {
        Some(filename) => filename,
        None => {
            return fallback;
        },
    };
    let raw = text::trimmed(filename);
    if text::chars_of(raw.as_str()).len() == 0 {
        return fallback;
    }
    let base = match paths::named_file_of(platform, raw.as_str()) {
        Some(base) => base,
        None => raw,
    };
    let name = clean_text(base.as_str());
    if text::chars_of(name.as_str()).len() == 0 || text::same_text(name.as_str(), ".")
        || text::same_text(name.as_str(), "..") {
        fallback
    } else {
        name
    }
}

/// Whatever file name is sent with a readable document, the name under which it is shown has no
/// separator and no control character, and leads to no directory.
pub proof fn memory_name_is_plain(
    platform: Platform,
    filename: Option<Seq<char>>,
    extension: Seq<char>,
)
    requires
        is_readable(extension),
    ensures
        ({
            let name = memory_name(platform, filename, extension);
            &&& name.len() > 0
            &&& name != "."@
            &&& name != ".."@
            &&& forall|i: int|
                0 <= i < name.len() ==> (#[trigger] name[i]) != '/' && name[i] != '\\'
                    && !text::is_control_code(name[i])
        }),
{
    let name = memory_name(platform, filename, extension);
    let fallback = "upload."@ + extension;
    reveal_strlit("upload.");
    reveal_strlit(".");
    reveal_strlit("..");
    readable_is_plain(extension);
    if name == fallback {
        assert(name.len() > 7);
        assert("."@.len() == 1 && ".."@.len() == 2);
        assert forall|i: int| 0 <= i < name.len() implies (#[trigger] name[i]) != '/' && name[i]
            != '\\' && !text::is_control_code(name[i]) by {
            if i >= 7 {
                assert(name[i] == extension[i - 7]);
            } else {
                assert(name[i] == "upload."@[i]);
            }
        }
    } else {
        let base = base_name(platform, text::trim(filename->0));
        assert forall|i: int| 0 <= i < name.len() implies (#[trigger] name[i]) != '/' && name[i]
            != '\\' && !text::is_control_code(name[i]) by {
            assert(name[i] == clean_char(base[i]));
        }
    }
}

/// The response to an error of reading a file, by what it says.
pub open spec fn read_failure(e: Seq<char>) -> ResponseModel {
    let lower = text::unicode_lower(e);
    if text::contains(lower, "does not exist"@) {
        response::failure(404, "FILE_NOT_FOUND"@, e)
    } else if text::contains(lower, "not supported"@) || text::contains(lower, "unsupported"@) {
        response::failure(422, "UNSUPPORTED_FORMAT"@, e)
    } else {
        response::failure(422, "EXTRACT_FAILED"@, e)
    }
}

/// Answers an error of reading a file, by what it says.
pub fn map_read_file_error(e: &str) -> (r: OmnimindResponse)
    ensures
        r@ == read_failure(e@),
{
    let lower = text::unicode_lowered(e);
    let t = lower.as_str();
    if text::contains_text(t, "does not exist") {
        return response::error_response(404, "FILE_NOT_FOUND", e);
    }
    if text::contains_text(t, "not supported") || text::contains_text(t, "unsupported") {
        return response::error_response(422, "UNSUPPORTED_FORMAT", e);
    }
    response::error_response(422, "EXTRACT_FAILED", e)
}

/// The response with the text of a document.
pub open spec fn text_answer(path: Seq<char>, extension: Seq<char>, content: Result<
    Seq<char>,
    Seq<char>,
>) -> ResponseModel {
    match content {
        Ok(content) => response::success(
            json::no_fields().push(("ok"@, JsonModel::Bool(true))).push(
                ("path"@, JsonModel::Text(path)),
            ).push(("extension"@, JsonModel::Text(extension))).push(
                ("content"@, JsonModel::Text(content)),
            ).push(("chars"@, JsonModel::UInt(content.len()))),
        ),
        Err(e) => read_failure(e),
    }
}

/// The characters of a text, or of an error.
pub open spec fn text_view(content: Result<String, String>) -> Result<Seq<char>, Seq<char>> {
    match content {
        Ok(content) => Ok(content@),
        Err(e) => Err(e@),
    }
}

/// Answers with the text of a document.
fn text_response(path: String, extension: String, content: Result<String, String>) -> (r:
    OmnimindResponse)
    ensures
        r@ == text_answer(path@, extension@, text_view(content)),
{
    match content {
        Ok(content) => {
            let chars: usize = text::chars_of(content.as_str()).len();
            response::success_response(
                Fields::new().and("ok", Json::Bool(true)).and("path", Json::Text(path)).and(
                    "extension",
                    Json::Text(extension),
                ).and("content", Json::Text(content)).and("chars", Json::size(chars)),
            )
        },
        Err(e) => map_read_file_error(e.as_str()),
    }
}

/// Whether a request sends the bytes of a document.
pub open spec fn sends_content(request: ExtractTextRequest) -> bool {
    request.content_base64 matches Some(content) && text::trim(content@).len() > 0
}

/// Tests whether a request sends the bytes of a document; otherwise it names a path.
pub fn has_content(request: &ExtractTextRequest) -> (r: bool)
    ensures
        r == sends_content(*request),
{
    match &request.content_base64 {
        Some(content) => !text::is_blank(content.as_str()),
        None => false,
    }
}

/// The bytes that a text stands for in the base64 encoding, or what is wrong with it.
pub uninterp spec fn base64_decoded(t: Seq<char>) -> Result<Seq<u8>, Seq<char>>;

/// `base64::Engine::decode` of `base64::engine::general_purpose::STANDARD` reads the bytes of a
/// text as base64 with the standard alphabet and padding; where they are none it fails with an
/// error, of which the text is taken. Bytes and error are functions of the text alone.
#[verifier::external_body]
fn decode_base64(t: &str) -> (r: Result<Vec<u8>, String>)
    ensures
        match r {
            Ok(bytes) => base64_decoded(t@) == Ok::<Seq<u8>, Seq<char>>(bytes@),
            Err(e) => base64_decoded(t@) == Err::<Seq<u8>, Seq<char>>(e@),
        },
{
    base64::engine::general_purpose::STANDARD.decode(t.as_bytes()).map_err(|e| e.to_string())
}

/// Whether a text has the form of a UUID: 36 characters, dashes at four places, and small
/// hexadecimal digits elsewhere.
pub open spec fn is_uuid(t: Seq<char>) -> bool {
    &&& t.len() == 36
    &&& forall|i: int|
        0 <= i < 36 ==> if i == 8 || i == 13 || i == 18 || i == 23 {
            #[trigger] t[i] == '-'
        } else {
            '0' <= t[i] <= '9' || 'a' <= t[i] <= 'f'
        }
}

/// `uuid::Uuid::new_v4` makes a random UUID, which is written in the hyphenated form with small
/// letters. Which one it is, is left to chance.
#[verifier::external_body]
fn new_uuid() -> (r: String)
    ensures
        is_uuid(r@),
{
    uuid::Uuid::new_v4().to_string()
}

/// The name of the temporary file of a document that was sent.
pub open spec fn temp_name(pid: u32, unique: Seq<char>, extension: Seq<char>) -> Seq<char> {
    "omnimind-extract-"@ + text::decimal(pid as nat) + "-"@ + unique + "."@ + extension
}

/// Makes the name of the temporary file of a document that was sent.
pub fn temp_file_name(pid: u32, unique: &str, extension: &str) -> (r: String)
    ensures
        r@ == temp_name(pid, unique@, extension@),
{
    let mut r = "omnimind-extract-".to_owned();
    r.append(text::decimal_text(pid as u64).as_str());
    r.append("-");
    r.append(unique);
    r.append(".");
    r.append(extension);
    r
}

/// The extension that is given with a document that was sent; empty where none is.
pub open spec fn content_extension(request: ExtractTextRequest) -> Seq<char> {
    match request.extension {
        Some(extension) => normal_extension(extension@),
        None => Seq::empty(),
    }
}

/// The extension that is given with a document that was sent.
fn find_extension(request: &ExtractTextRequest) -> (r: String)
    ensures
        r@ == content_extension(*request),
{
    match &request.extension {
        Some(extension) => normalize_extract_extension(extension.as_str()),
        None => {
            let none = String::new();
            assert(none@ =~= Seq::empty());
            none
        },
    }
}

/// The base64 text that a request sends.
pub open spec fn sent_text(request: ExtractTextRequest) -> Seq<char> {
    match request.content_base64 {
        Some(content) => text::trim(content@),
        None => text::trim(""@),
    }
}

/// Why a document that was sent is not decoded, if it is not.
pub open spec fn content_refusal(request: ExtractTextRequest) -> Option<ResponseModel> {
    let extension = content_extension(request);
    if extension.len() == 0 {
        Some(
            response::failure(
                400,
                "EXTENSION_REQUIRED"@,
                "extension is required for contentBase64 mode"@,
            ),
        )
    } else if !is_readable(extension) {
        Some(
            response::failure(
                422,
                "UNSUPPORTED_FORMAT"@,
                "Unsupported extension for extract-text: ."@ + extension,
            ),
        )
    } else if decoded_estimate(encode_utf8(sent_text(request)).len()) > EXTRACT_CONTENT_MAX_BYTES
        + 3 {
        Some(too_large())
    } else {
        None
    }
}

/// The response to a document that is too large.
pub open spec fn too_large() -> ResponseModel {
    response::failure(413, "PAYLOAD_TOO_LARGE"@, "Decoded content exceeds the 100 MB limit"@)
}

/// Why a document that was decoded is not read, if it is not.
pub open spec fn decoded_refusal(decoded: Result<Seq<u8>, Seq<char>>) -> Option<ResponseModel> {
    match decoded {
        Err(e) => Some(response::failure(400, "INVALID_BASE64"@, "Invalid base64: "@ + e)),
        Ok(bytes) => if bytes.len() > EXTRACT_CONTENT_MAX_BYTES {
            Some(too_large())
        } else {
            None
        },
    }
}

/// A document that was sent, ready to be written to a temporary file and read.
pub struct ContentPlan {
    pub bytes: Vec<u8>,
    pub extension: String,
    pub memory_name: String,
    pub temp_name: String,
}

/// The bytes of a decoded document, or what is wrong with it.
pub open spec fn bytes_view(decoded: Result<Vec<u8>, String>) -> Result<Seq<u8>, Seq<char>> {
    match decoded {
        Ok(bytes) => Ok(bytes@),
        Err(e) => Err(e@),
    }
}

/// Takes up a document that was decoded, or refuses it.
pub fn accept_content(
    platform: Platform,
    filename: Option<&str>,
    extension: String,
    decoded: Result<Vec<u8>, String>,
    pid: u32,
    unique: &str,
) -> (r: Result<ContentPlan, OmnimindResponse>)
    ensures
        match r {
            Ok(plan) => {
                &&& decoded_refusal(bytes_view(decoded)) is None
                &&& decoded == Ok::<Vec<u8>, String>(plan.bytes)
                &&& plan.extension == extension
                &&& plan.memory_name@ == memory_name(platform, text::optional_view(filename), extension@)
                &&& plan.temp_name@ == temp_name(pid, unique@, extension@)
            },
            Err(answer) => decoded_refusal(bytes_view(decoded)) == Some(answer@),
        },
{
    let bytes = match decoded {
        Ok(bytes) => bytes,
        Err(e) => {
            return Err(
                response::error_response(
                    400,
                    "INVALID_BASE64",
                    response::message_with("Invalid base64: ", e.as_str()).as_str(),
                ),
            );
        },
    };
    match content_bytes_within_limit(bytes.len()) {
        Ok(_) => {},
        Err(message) => {
            return Err(response::error_response(413, "PAYLOAD_TOO_LARGE", message.as_str()));
        },
    }
    let memory_name = sanitize_memory_filename(platform, filename, extension.as_str());
    let temp_name = temp_file_name(pid, unique, extension.as_str());
    Ok(ContentPlan { bytes, extension, memory_name, temp_name })
}

/// Takes up a document that was sent, or refuses it. Its temporary file has a name that was not
/// used before.
pub fn handle_extract_text_from_content(
    request: &ExtractTextRequest,
    platform: Platform,
    pid: u32,
) -> (r: Result<ContentPlan, OmnimindResponse>)
    ensures
        match content_refusal(*request) {
            Some(refusal) => r matches Err(answer) && answer@ == refusal,
            None => {
                let decoded = base64_decoded(sent_text(*request));
                match decoded_refusal(decoded) {
                    Some(refusal) => r matches Err(answer) && answer@ == refusal,
                    None => {
                        &&& r matches Ok(plan)
                        &&& decoded == Ok::<Seq<u8>, Seq<char>>(plan.bytes@)
                        &&& plan.extension@ == content_extension(*request)
                        &&& plan.memory_name@ == memory_name(
                            platform,
                            text::optional_text(request.filename),
                            plan.extension@,
                        )
                        &&& exists|unique: Seq<char>| #[trigger]
                            is_uuid(unique) && plan.temp_name@ == temp_name(
                                pid,
                                unique,
                                plan.extension@,
                            )
                    },
                }
            },
        },
{
    let extension = find_extension(request);
    if text::chars_of(extension.as_str()).len() == 0 {
        return Err(
            response::error_response(
                400,
                "EXTENSION_REQUIRED",
                "extension is required for contentBase64 mode",
            ),
        );
    }
    if !is_extract_text_allowed_ext(extension.as_str()) {
        return Err(
            response::error_response(
                422,
                "UNSUPPORTED_FORMAT",
                response::message_with(
                    "Unsupported extension for extract-text: .",
                    extension.as_str(),
                ).as_str(),
            ),
        );
    }
    let sent = match &request.content_base64 {
        Some(content) => text::trimmed(content.as_str()),
        None => text::trimmed(""),
    };
    let size: usize = sent.as_str().as_bytes().len();
    if estimated_base64_decoded_len(size) > EXTRACT_CONTENT_MAX_BYTES + 3 {
        return Err(
            response::error_response(
                413,
                "PAYLOAD_TOO_LARGE",
                "Decoded content exceeds the 100 MB limit",
            ),
        );
    }
    let decoded = decode_base64(sent.as_str());
    let unique = new_uuid();
    let filename = text::optional_str(&request.filename);
    accept_content(platform, filename, extension, decoded, pid, unique.as_str())
}

impl ContentPlan {
    /// Answers where the temporary file could not be written.
    pub fn not_written(&self, cause: &str) -> (r: OmnimindResponse)
        ensures
            r@ == response::failure(
                500,
                "TEMP_WRITE_FAILED"@,
                "Failed to write temp file: "@ + cause@,
            ),
    {
        response::error_response(
            500,
            "TEMP_WRITE_FAILED",
            response::message_with("Failed to write temp file: ", cause).as_str(),
        )
    }

    /// Answers with the text that was read.
    pub fn respond(self, content: Result<String, String>) -> (r: OmnimindResponse)
        ensures
            r@ == text_answer(
                "memory:"@ + self.memory_name@,
                self.extension@,
                text_view(content),
            ),
    {
        let path = response::message_with("memory:", self.memory_name.as_str());
        text_response(path, self.extension, content)
    }
}

proof fn lemma_decimal_digits(n: nat)
    ensures
        forall|i: int|
            0 <= i < text::decimal(n).len() ==> '0' <= #[trigger] text::decimal(n)[i]
                && text::decimal(n)[i] <= '9',
    decreases n,
{
    let all = text::decimal(n);
    let d = n % 10;
    assert('0' <= text::digit(d) <= '9');
    if n >= 10 {
        lemma_decimal_digits(n / 10);
        let more = text::decimal(n / 10);
        assert(all == more.push(text::digit(d)));
        assert forall|i: int| 0 <= i < all.len() implies '0' <= #[trigger] all[i] && all[i]
            <= '9' by {
            if i < more.len() {
                assert(all[i] == more[i]);
            }
        }
    } else {
        assert(all[0] == text::digit(d));
    }
}

/// The temporary file of a readable document lies in the directory for temporary files: its name
/// has no separator.
pub proof fn temp_name_is_plain(pid: u32, unique: Seq<char>, extension: Seq<char>)
    requires
        is_uuid(unique),
        is_readable(extension),
    ensures
        !temp_name(pid, unique, extension).contains('/'),
        !temp_name(pid, unique, extension).contains('\\'),
{
    reveal_strlit("omnimind-extract-");
    reveal_strlit("-");
    reveal_strlit(".");
    readable_is_plain(extension);
    lemma_decimal_digits(pid as nat);
    let a = "omnimind-extract-"@;
    let b = a + text::decimal(pid as nat);
    let c = b + "-"@;
    let d = c + unique;
    let e = d + "."@;
    let name = e + extension;
    assert(name == temp_name(pid, unique, extension));
    assert forall|i: int| 0 <= i < name.len() implies #[trigger] name[i] != '/' && name[i]
        != '\\' by {
        if i < a.len() {
            assert(name[i] == a[i]);
        } else if i < b.len() {
            assert(name[i] == text::decimal(pid as nat)[i - a.len()]);
        } else if i < c.len() {
            assert(name[i] == "-"@[0]);
        } else if i < d.len() {
            assert(name[i] == unique[i - c.len()]);
        } else if i < e.len() {
            assert(name[i] == "."@[0]);
        } else {
            assert(name[i] == extension[i - e.len()]);
        }
    }
}

/// What a request for the text of a document gives.
pub enum ExtractMode {
    /// The bytes of the document.
    Content(ExtractTextRequest),
    /// A path in a project.
    Path(ExtractTextRequest),
}

/// Tells what a request gives, or refuses it.
pub fn handle_extract_text(request: Result<ExtractTextRequest, String>) -> (r: Result<
    ExtractMode,
    OmnimindResponse,
>)
    ensures
        match request {
            Err(cause) => r matches Err(answer) && answer@ == response::invalid_json(cause@),
            Ok(request) => r == Ok::<ExtractMode, OmnimindResponse>(
                if sends_content(request) {
                    ExtractMode::Content(request)
                } else {
                    ExtractMode::Path(request)
                },
            ),
        },
{
    match request {
        Err(cause) => Err(response::invalid_json_response(cause.as_str())),
        Ok(request) => if has_content(&request) {
            Ok(ExtractMode::Content(request))
        } else {
            Ok(ExtractMode::Path(request))
        },
    }
}

/// The path that a request gives.
pub open spec fn path_asked(request: ExtractTextRequest) -> Seq<char> {
    match request.path {
        Some(path) => text::trim(path@),
        None => text::trim(""@),
    }
}

/// Tells the path that a request gives.
fn find_path(request: &ExtractTextRequest) -> (r: String)
    ensures
        r@ == path_asked(*request),
{
    match &request.path {
        Some(path) => text::trimmed(path.as_str()),
        None => text::trimmed(""),
    }
}

/// Tests whether a request gives a path.
pub fn has_path(request: &ExtractTextRequest) -> (r: bool)
    ensures
        r == (path_asked(*request).len() > 0),
{
    text::chars_of(find_path(request).as_str()).len() > 0
}

/// A document in a project that is being looked for.
pub struct PathSource {
    pub project: ProjectEntry,
    pub step: ResolveStep,
}

/// Why a document in a project is not looked for, if it is not.
pub open spec fn path_refusal(
    request: ExtractTextRequest,
    target: Result<ProjectModel, Seq<char>>,
) -> Option<ResponseModel> {
    if path_asked(request).len() == 0 {
        Some(
            response::failure(
                400,
                "PATH_REQUIRED"@,
                "path is required (or provide contentBase64 + extension)"@,
            ),
        )
    } else {
        match target {
            Err(message) => Some(files::not_found(message)),
            Ok(_) => None,
        }
    }
}

/// Begins to look for a document in a project, or refuses the request.
pub fn handle_extract_text_from_path(
    request: &ExtractTextRequest,
    projects: Vec<ProjectEntry>,
    platform: Platform,
) -> (r: Result<PathSource, OmnimindResponse>)
    requires
        path_asked(*request).len() > 0 ==> files::id_decodable(request.project_id),
    ensures
        ({
            let target = projects::target(
                text::optional_text(request.project_id),
                projects::project_views(projects@),
                platform,
            );
            match r {
                Ok(source) => {
                    &&& path_refusal(*request, target) is None
                    &&& target == Ok::<ProjectModel, Seq<char>>(source.project@)
                    &&& source.step@ == resolve::begin(
                        platform,
                        source.project.path@,
                        path_asked(*request),
                    )
                },
                Err(answer) => path_refusal(*request, target) == Some(answer@),
            }
        }),
{
    let path = find_path(request);
    if text::chars_of(path.as_str()).len() == 0 {
        return Err(
            response::error_response(
                400,
                "PATH_REQUIRED",
                "path is required (or provide contentBase64 + extension)",
            ),
        );
    }
    let id = text::optional_str(&request.project_id);
    match projects::get_target_project(id, projects, platform) {
        Ok(project) => {
            let step = resolve::resolve_project_file_path(
                platform,
                project.path.as_str(),
                path.as_str(),
            );
            Ok(PathSource { project, step })
        },
        Err(message) => Err(files::project_not_found(message.as_str())),
    }
}

/// The response to an error of looking for a document, by what it says.
pub open spec fn path_failure(e: Seq<char>) -> ResponseModel {
    let lower = text::unicode_lower(e);
    if text::contains(lower, "outside project"@) || text::contains(lower, "traversal"@) {
        response::failure(400, "INVALID_PATH"@, e)
    } else if text::contains(lower, "does not exist"@) {
        response::failure(404, "FILE_NOT_FOUND"@, e)
    } else if text::contains(lower, "empty"@) {
        response::failure(400, "PATH_REQUIRED"@, e)
    } else {
        response::failure(400, "INVALID_PATH"@, e)
    }
}

/// Answers an error of looking for a document, by what it says.
pub fn path_error_response(e: &str) -> (r: OmnimindResponse)
    ensures
        r@ == path_failure(e@),
{
    let lower = text::unicode_lowered(e);
    let t = lower.as_str();
    if text::contains_text(t, "outside project") || text::contains_text(t, "traversal") {
        return response::error_response(400, "INVALID_PATH", e);
    }
    if text::contains_text(t, "does not exist") {
        return response::error_response(404, "FILE_NOT_FOUND", e);
    }
    if text::contains_text(t, "empty") {
        return response::error_response(400, "PATH_REQUIRED", e);
    }
    response::error_response(400, "INVALID_PATH", e)
}

/// Decides whether a document that was found can be read: a directory cannot.
pub fn plan_extraction(is_dir: bool) -> (r: Option<OmnimindResponse>)
    ensures
        match r {
            Some(answer) => is_dir && answer@ == response::failure(
                422,
                "NOT_A_FILE"@,
                "Path is a directory"@,
            ),
            None => !is_dir,
        },
{
    if is_dir {
        Some(response::error_response(422, "NOT_A_FILE", "Path is a directory"))
    } else {
        None
    }
}

/// The extension of a document in a project in small letters; empty where there is none.
pub open spec fn found_extension(path: Seq<u8>) -> Seq<char> {
    match paths::byte_extension(path) {
        Some(extension) => text::unicode_lower(extension),
        None => text::unicode_lower(""@),
    }
}

/// Answers with the text of a document in a project.
pub fn path_text_response(project: &ProjectEntry, path: &[u8], content: Result<String, String>) -> (r:
    OmnimindResponse)
    ensures
        r@ == text_answer(
            paths::shown_path(project.path@, path@),
            found_extension(path@),
            text_view(content),
        ),
{
    let extension = match paths::byte_extension_of(path) {
        Some(extension) => text::unicode_lowered(extension.as_str()),
        None => text::unicode_lowered(""),
    };
    let shown = paths::relative_to_project(project.path.as_str(), path);
    text_response(shown, extension, content)
}

/// The formats whose text can be read.
pub open spec fn readable_formats() -> Seq<Seq<char>> {
    seq![
        "epub"@,
        "mobi"@,
        "pdf"@,
        "doc"@,
        "docx"@,
        "pptx"@,
        "ppt"@,
        "xls"@,
        "xlsx"@,
        "odt"@,
        "ods"@,
        "odp"@,
        "txt"@,
        "md"@,
        "markdown"@,
        "org"@,
        "csv"@,
        "tsv"@,
        "html"@,
        "htm"@,
        "json"@,
        "xml"@,
        "yaml"@,
        "yml"@,
        "toml"@,
        "log"@,
        "rst"@,
        "text"@,
    ]
}

/// Every format of the list is accepted, and no other.
pub proof fn formats_are_readable(e: Seq<char>)
    ensures
        is_readable(e) <==> readable_formats().contains(e),
{
    let all = readable_formats();
    if is_readable(e) {
        assert(all[0] == "epub"@);
        assert(all[1] == "mobi"@);
        assert(all[2] == "pdf"@);
        assert(all[3] == "doc"@);
        assert(all[4] == "docx"@);
        assert(all[5] == "pptx"@);
        assert(all[6] == "ppt"@);
        assert(all[7] == "xls"@);
        assert(all[8] == "xlsx"@);
        assert(all[9] == "odt"@);
        assert(all[10] == "ods"@);
        assert(all[11] == "odp"@);
        assert(all[12] == "txt"@);
        assert(all[13] == "md"@);
        assert(all[14] == "markdown"@);
        assert(all[15] == "org"@);
        assert(all[16] == "csv"@);
        assert(all[17] == "tsv"@);
        assert(all[18] == "html"@);
        assert(all[19] == "htm"@);
        assert(all[20] == "json"@);
        assert(all[21] == "xml"@);
        assert(all[22] == "yaml"@);
        assert(all[23] == "yml"@);
        assert(all[24] == "toml"@);
        assert(all[25] == "log"@);
        assert(all[26] == "rst"@);
        assert(all[27] == "text"@);
        assert(exists|i: int| 0 <= i < all.len() && all[i] == e);
    }
    if all.contains(e) {
        let i = all.index_of(e);
        assert(all[i] == e);
    }
}

/// Books, documents, slides and tables, plain and marked-up texts can all be read, each by its
/// extension.
pub proof fn known_formats_are_readable()
    ensures
        is_readable("epub"@),
        is_readable("mobi"@),
        is_readable("pdf"@),
        is_readable("doc"@),
        is_readable("docx"@),
        is_readable("pptx"@),
        is_readable("ppt"@),
        is_readable("xls"@),
        is_readable("xlsx"@),
        is_readable("odt"@),
        is_readable("ods"@),
        is_readable("odp"@),
        is_readable("txt"@),
        is_readable("md"@),
        is_readable("markdown"@),
        is_readable("org"@),
        is_readable("csv"@),
        is_readable("tsv"@),
        is_readable("html"@),
        is_readable("htm"@),
        is_readable("json"@),
        is_readable("xml"@),
        is_readable("yaml"@),
        is_readable("yml"@),
        is_readable("toml"@),
        is_readable("log"@),
        is_readable("rst"@),
        is_readable("text"@),
{
}

/// An extension is compared without the blanks around it, without dots in front, and in small
/// letters.
pub proof fn extension_is_normal(
    a: Seq<char>,
    dots: Seq<char>,
    e: Seq<char>,
    b: Seq<char>,
)
    requires
        forall|i: int| 0 <= i < a.len() ==> text::is_white_space(#[trigger] a[i]),
        forall|i: int| 0 <= i < b.len() ==> text::is_white_space(#[trigger] b[i]),
        forall|i: int| 0 <= i < dots.len() ==> #[trigger] dots[i] == '.',
        e.len() > 0,
        e[0] != '.' && !text::is_white_space(e[0]) && !text::is_white_space(e.last()),
    ensures
        normal_extension(a + (dots + e) + b) == text::unicode_lower(e),
{
    let core = dots + e;
    assert(core.last() == e.last());
    assert(core[0] == '.' || core[0] == e[0]) by {
        if dots.len() > 0 {
            assert(dots[0] == '.');
        }
    }
    text::trim_drops_padding(a, core, b, CharClass::White);
    lemma_dots_dropped(dots, e);
}

proof fn lemma_dots_dropped(dots: Seq<char>, e: Seq<char>)
    requires
        forall|i: int| 0 <= i < dots.len() ==> #[trigger] dots[i] == '.',
        e.len() > 0,
        e[0] != '.',
    ensures
        text::trim_start(dots + e, CharClass::Only('.')) == e,
    decreases dots.len(),
{
    let core = dots + e;
    if dots.len() > 0 {
        assert(core[0] == dots[0]);
        assert(core.drop_first() =~= dots.drop_first() + e);
        assert forall|i: int| 0 <= i < dots.drop_first().len() implies #[trigger] dots.drop_first()[i]
            == '.' by {
            assert(dots.drop_first()[i] == dots[i + 1]);
        }
        lemma_dots_dropped(dots.drop_first(), e);
    } else {
        assert(core =~= e);
    }
}

/// Four characters of base64 stand for three bytes.
pub proof fn four_characters_are_three_bytes(n: nat)
    requires
        12 * n <= u64::MAX,
    ensures
        decoded_estimate(4 * n) == 3 * n,
        decoded_estimate(4 * n + 1) <= 3 * n + 1,
        decoded_estimate(4 * n + 3) <= 3 * n + 2 || 12 * n + 9 > u64::MAX,
{
}

/// A document that is sent is decoded if its extension is one of a readable format and it is not
/// too large, and otherwise refused: an unknown format with 422, no extension with 400, and one of
/// more than 100 MB with 413.
pub proof fn sent_document_is_judged(request: ExtractTextRequest)
    ensures
        ({
            let e = content_extension(request);
            let size = decoded_estimate(encode_utf8(sent_text(request)).len());
            match content_refusal(request) {
                None => readable_formats().contains(e) && size <= 104_857_603,
                Some(answer) => {
                    ||| e.len() == 0 && response::tells_error(
                        answer,
                        400,
                        "EXTENSION_REQUIRED"@,
                        "extension is required for contentBase64 mode"@,
                    )
                    ||| e.len() > 0 && !readable_formats().contains(e) && response::tells_error(
                        answer,
                        422,
                        "UNSUPPORTED_FORMAT"@,
                        "Unsupported extension for extract-text: ."@ + e,
                    )
                    ||| readable_formats().contains(e) && size > 104_857_603
                        && response::tells_error(
                        answer,
                        413,
                        "PAYLOAD_TOO_LARGE"@,
                        "Decoded content exceeds the 100 MB limit"@,
                    )
                },
            }
        }),
{
    let e = content_extension(request);
    formats_are_readable(e);
    response::errors_are_told(
        400,
        "EXTENSION_REQUIRED"@,
        "extension is required for contentBase64 mode"@,
    );
    response::errors_are_told(
        422,
        "UNSUPPORTED_FORMAT"@,
        "Unsupported extension for extract-text: ."@ + e,
    );
    response::errors_are_told(
        413,
        "PAYLOAD_TOO_LARGE"@,
        "Decoded content exceeds the 100 MB limit"@,
    );
}

/// The extension and the base64 text of a request are the ones that it gives, the text without the
/// blanks around it; a request without an extension has none.
pub proof fn request_is_read(request: ExtractTextRequest)
    ensures
        request.extension matches Some(e) ==> content_extension(request) == normal_extension(e@),
        request.extension is None ==> content_extension(request).len() == 0,
        request.content_base64 matches Some(content) ==> sent_text(request) == text::trim(content@),
        request.content_base64 is None ==> sent_text(request).len() == 0,
        request.path matches Some(path) ==> path_asked(request) == text::trim(path@),
        request.path is None ==> path_asked(request).len() == 0,
        sends_content(request) <==> (request.content_base64 is Some && text::trim(
            request.content_base64->0@,
        ).len() > 0),
{
    reveal_strlit("");
    assert(""@.len() == 0);
    text::trim_takes_edges(""@, CharClass::White);
}

/// A document that was decoded is read unless it has more than 100 MB; one that is no base64 is
/// refused and told why.
pub proof fn decoded_document_is_judged(bytes: Seq<u8>, e: Seq<char>)
    ensures
        bytes.len() <= 104_857_600 ==> decoded_refusal(Ok(bytes)) is None,
        bytes.len() > 104_857_600 ==> (decoded_refusal(Ok(bytes)) matches Some(answer)
            && response::tells_error(
            answer,
            413,
            "PAYLOAD_TOO_LARGE"@,
            "Decoded content exceeds the 100 MB limit"@,
        )),
        decoded_refusal(Err(e)) matches Some(answer) && response::tells_error(
            answer,
            400,
            "INVALID_BASE64"@,
            "Invalid base64: "@ + e,
        ),
{
    response::errors_are_told(
        413,
        "PAYLOAD_TOO_LARGE"@,
        "Decoded content exceeds the 100 MB limit"@,
    );
    response::errors_are_told(400, "INVALID_BASE64"@, "Invalid base64: "@ + e);
}

/// A document that is sent under a plain name is shown under that name, and one without a name
/// under `upload` with its extension.
pub proof fn plain_name_is_shown(name: Seq<char>, extension: Seq<char>)
    requires
        name.len() > 0,
        name != "."@,
        name != ".."@,
        !text::is_white_space(name[0]),
        !text::is_white_space(name.last()),
        forall|i: int|
            0 <= i < name.len() ==> (#[trigger] name[i]) != '/' && name[i] != '\\'
                && !text::is_control_code(name[i]),
    ensures
        memory_name(Platform::Other, Some(name), extension) == name,
        memory_name(Platform::MacOs, Some(name), extension) == name,
        memory_name(Platform::Other, None, extension) == "upload."@ + extension,
        memory_name(Platform::Windows, None, extension) == "upload."@ + extension,
        memory_name(Platform::Other, Some(Seq::empty()), extension) == "upload."@ + extension,
{
    reveal_strlit(".");
    reveal_strlit("..");
    text::trim_keeps_plain(name, CharClass::White);
    text::trim_keeps_plain(Seq::empty(), CharClass::White);
    assert("."@ =~= seq!['.']);
    assert(".."@ =~= seq!['.', '.']);
    paths::plain_name_is_file_name(Seq::empty(), name);
    assert(cleaned(name) =~= name);
    assert(name.skip(0) =~= name);
}

/// Of a file name with separators the last part is shown, and each character that does not belong
/// into a name is shown as an underscore.
pub proof fn name_is_cleaned(c: char, name: Seq<char>)
    ensures
        clean_char('/') == '_' && clean_char('\\') == '_',
        text::is_control_code(c) ==> clean_char(c) == '_',
        c != '/' && c != '\\' && !text::is_control_code(c) ==> clean_char(c) == c,
        cleaned(name).len() == name.len(),
        forall|i: int| 0 <= i < name.len() ==> #[trigger] cleaned(name)[i] == clean_char(name[i]),
{
}

/// The temporary file of a document has its extension, and two documents of one process have two
/// files wherever their unique parts differ.
pub proof fn temp_names_differ(pid: u32, a: Seq<char>, b: Seq<char>, extension: Seq<char>)
    ensures
        temp_name(pid, a, extension) == temp_name(pid, b, extension) ==> a == b,
        text::starts_with(temp_name(pid, a, extension), "omnimind-extract-"@),
        temp_name(pid, a, extension).skip(
            temp_name(pid, a, extension).len() - extension.len(),
        ) == extension,
        temp_name(pid, a, extension)[temp_name(pid, a, extension).len() - extension.len() - 1]
            == '.',
{
    reveal_strlit(".");
    reveal_strlit("omnimind-extract-");
    let front = "omnimind-extract-"@ + text::decimal(pid as nat) + "-"@;
    let s = temp_name(pid, a, extension);
    let t = temp_name(pid, b, extension);
    assert(s =~= front + a + ("."@ + extension));
    assert(t =~= front + b + ("."@ + extension));
    assert(s.skip(s.len() - extension.len()) =~= extension);
    text::contained_text_stands_between(
        s,
        Seq::empty(),
        "omnimind-extract-"@,
        text::decimal(pid as nat) + "-"@ + a + "."@ + extension,
    );
    assert(s =~= "omnimind-extract-"@ + (text::decimal(pid as nat) + "-"@ + a + "."@ + extension));
    if s == t {
        assert(a.len() == b.len());
        assert forall|i: int| 0 <= i < a.len() implies a[i] == b[i] by {
            assert(s[front.len() + i] == a[i]);
            assert(t[front.len() + i] == b[i]);
        }
        assert(a =~= b);
    }
}

/// An error of reading a file is answered by what it says, in letters of either case: that
/// something does not exist with 404, that it is not supported with 422, and any other with 422.
pub proof fn read_errors_are_told(e: Seq<char>)
    ensures
        ({
            let lower = text::unicode_lower(e);
            let answer = read_failure(e);
            if text::contains(lower, "does not exist"@) {
                response::tells_error(answer, 404, "FILE_NOT_FOUND"@, e)
            } else if text::contains(lower, "not supported"@) || text::contains(
                lower,
                "unsupported"@,
            ) {
                response::tells_error(answer, 422, "UNSUPPORTED_FORMAT"@, e)
            } else {
                response::tells_error(answer, 422, "EXTRACT_FAILED"@, e)
            }
        }),
{
    response::errors_are_told(404, "FILE_NOT_FOUND"@, e);
    response::errors_are_told(422, "UNSUPPORTED_FORMAT"@, e);
    response::errors_are_told(422, "EXTRACT_FAILED"@, e);
}

/// An error of looking for a document is answered by what it says, in letters of either case.
pub proof fn path_errors_are_told(e: Seq<char>)
    ensures
        ({
            let lower = text::unicode_lower(e);
            let out = text::contains(lower, "outside project"@) || text::contains(
                lower,
                "traversal"@,
            );
            let answer = path_failure(e);
            &&& out ==> response::tells_error(answer, 400, "INVALID_PATH"@, e)
            &&& !out && text::contains(lower, "does not exist"@) ==> response::tells_error(
                answer,
                404,
                "FILE_NOT_FOUND"@,
                e,
            )
            &&& !out && !text::contains(lower, "does not exist"@) && text::contains(
                lower,
                "empty"@,
            ) ==> response::tells_error(answer, 400, "PATH_REQUIRED"@, e)
            &&& !out && !text::contains(lower, "does not exist"@) && !text::contains(
                lower,
                "empty"@,
            ) ==> response::tells_error(answer, 400, "INVALID_PATH"@, e)
        }),
{
    response::errors_are_told(400, "INVALID_PATH"@, e);
    response::errors_are_told(404, "FILE_NOT_FOUND"@, e);
    response::errors_are_told(400, "PATH_REQUIRED"@, e);
}

/// A request for a document in a project is looked for if it gives a path and its project is known.
pub proof fn asked_document_is_looked_for(
    request: ExtractTextRequest,
    target: Result<ProjectModel, Seq<char>>,
)
    ensures
        path_refusal(request, target) is None <==> path_asked(request).len() > 0 && target is Ok,
        path_asked(request).len() == 0 ==> (path_refusal(request, target) matches Some(answer)
            && response::tells_error(
            answer,
            400,
            "PATH_REQUIRED"@,
            "path is required (or provide contentBase64 + extension)"@,
        )),
        path_asked(request).len() > 0 ==> (target matches Err(message) ==> path_refusal(
            request,
            target,
        ) matches Some(answer) && response::tells_error(answer, 404, "PROJECT_NOT_FOUND"@, message)),
{
    response::errors_are_told(
        400,
        "PATH_REQUIRED"@,
        "path is required (or provide contentBase64 + extension)"@,
    );
    if target is Err {
        response::errors_are_told(404, "PROJECT_NOT_FOUND"@, target->Err_0);
    }
}

/// The extension of a document in a project is that of its file, in small letters.
pub proof fn found_extension_is_small(path: Seq<u8>)
    ensures
        paths::byte_extension(path) matches Some(e) ==> found_extension(path)
            == text::unicode_lower(e),
        paths::byte_extension(path) is None ==> found_extension(path).len() == 0,
{
    reveal_strlit("");
    assert(""@.len() == 0);
    assert(is_ascii_chars(""@));
}

/// A document is answered with its path, its extension, its text, and how many characters that has.
pub proof fn document_text_is_answered(path: Seq<char>, extension: Seq<char>, content: Seq<char>)
    ensures
        ({
            let value = text_answer(path, extension, Ok(content)).body;
            &&& value->Object_0.len() == 5
            &&& value.field("ok"@) == Some(JsonModel::Bool(true))
            &&& value.field("path"@) == Some(JsonModel::Text(path))
            &&& value.field("extension"@) == Some(JsonModel::Text(extension))
            &&& value.field("content"@) == Some(JsonModel::Text(content))
            &&& value.field("chars"@) == Some(JsonModel::UInt(content.len()))
        }),
        text_answer(path, extension, Ok(content)).status == 200,
        text_answer(path, extension, Err(content)) == read_failure(content),
{
    reveal_strlit("ok");
    reveal_strlit("path");
    reveal_strlit("extension");
    reveal_strlit("content");
    reveal_strlit("chars");
    assert("ok"@.len() == 2 && "path"@.len() == 4 && "extension"@.len() == 9);
    assert("content"@.len() == 7 && "chars"@.len() == 5);
    let fields = (text_answer(path, extension, Ok(content)).body)->Object_0;
    assert(fields[0] == ("ok"@, JsonModel::Bool(true)));
    assert(fields[1] == ("path"@, JsonModel::Text(path)));
    assert(fields[2] == ("extension"@, JsonModel::Text(extension)));
    assert(fields[3] == ("content"@, JsonModel::Text(content)));
    assert(fields[4] == ("chars"@, JsonModel::UInt(content.len())));
    json::each_field_is_read(fields);
}

/// Answers of the file system and of the decoder are taken for what they say.
pub proof fn extract_answers_are_kept(content: String, bytes: Vec<u8>, message: String)
    ensures
        text_view(Ok(content)) == Ok::<Seq<char>, Seq<char>>(content@),
        text_view(Err(message)) == Err::<Seq<char>, Seq<char>>(message@),
        bytes_view(Ok(bytes)) == Ok::<Seq<u8>, Seq<char>>(bytes@),
        bytes_view(Err(message)) == Err::<Seq<u8>, Seq<char>>(message@),
{
}

/// Of a file name that is sent with directories before it, the last part alone is shown; on Windows
/// a directory ends with either separator.
pub proof fn last_part_is_shown(
    drive: char,
    dir: Seq<char>,
    sep: char,
    name: Seq<char>,
    extension: Seq<char>,
)
    requires
        name.len() > 0,
        name != "."@,
        name != ".."@,
        sep == '/' || sep == '\\',
        'a' <= drive <= 'z' || 'A' <= drive <= 'Z',
        dir.len() > 0 ==> !text::is_white_space(dir[0]),
        !text::is_white_space(name.last()),
        forall|i: int| 0 <= i < name.len() ==> (#[trigger] name[i]) != '/' && name[i] != '\\',
    ensures
        cleaned(name) != "."@ && cleaned(name) != ".."@ ==> memory_name(
            Platform::Other,
            Some(dir + seq!['/'] + name),
            extension,
        ) == cleaned(name) && memory_name(
            Platform::Windows,
            Some(seq![drive, ':'] + dir + seq![sep] + name),
            extension,
        ) == cleaned(name),
{
    reveal_strlit(".");
    reveal_strlit("..");
    assert("."@ =~= seq!['.']);
    assert(".."@ =~= seq!['.', '.']);
    paths::windows_names_are_read(drive, dir, sep, name, Seq::empty());
    let a = dir + seq!['/'] + name;
    let b = seq![drive, ':'] + dir + seq![sep] + name;
    assert(a.last() == name.last());
    assert(b.last() == name.last());
    assert(b[0] == drive);
    assert(a[0] == if dir.len() > 0 { dir[0] } else { '/' });
    text::trim_keeps_plain(a, CharClass::White);
    text::trim_keeps_plain(b, CharClass::White);
    assert(cleaned(name).len() == name.len());
}

/// The temporary files of two processes differ.
pub proof fn temp_names_tell_processes(p: u32, q: u32, unique: Seq<char>, extension: Seq<char>)
    requires
        temp_name(p, unique, extension) == temp_name(q, unique, extension),
    ensures
        p == q,
{
    let front = "omnimind-extract-"@;
    let back = "-"@ + unique + "."@ + extension;
    let s = temp_name(p, unique, extension);
    let x = text::decimal(p as nat);
    let y = text::decimal(q as nat);
    assert(s =~= front + x + back);
    assert(temp_name(q, unique, extension) =~= front + y + back);
    assert(x.len() == y.len());
    assert forall|i: int| 0 <= i < x.len() implies x[i] == y[i] by {
        assert(s[front.len() + i] == x[i]);
        assert((front + y + back)[front.len() + i] == y[i]);
    }
    assert(x =~= y);
    text::numeral_is_read(p as nat, x);
    text::numeral_is_read(q as nat, y);
}

/// The estimate is three quarters of the length, rounded down, and never less for a longer text;
/// past what sixty-four bits can count it stays at a quarter of the largest number.
pub proof fn estimate_is_three_quarters(m: nat, n: nat)
    ensures
        3 * n <= u64::MAX ==> 4 * decoded_estimate(n) <= 3 * n < 4 * decoded_estimate(n) + 4,
        3 * n > u64::MAX ==> 4 * decoded_estimate(n) <= u64::MAX < 4 * decoded_estimate(n) + 4,
        m <= n ==> decoded_estimate(m) <= decoded_estimate(n),
{
}

} // verus!
